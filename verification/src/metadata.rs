//! Metadata of the contract and of its tokens (NEP-177), held as plain values.
use vstd::prelude::*;
use vstd::string::*;
use crate::decimal::{decimal, to_decimal};

verus! {

/// The view of an optional string.
pub open spec fn opt_str(o: Option<String>) -> Option<Seq<char>> {
    match o {
        Some(s) => Some(s@),
        None => None,
    }
}

/// The view of optional bytes.
pub open spec fn opt_bytes(o: Option<Vec<u8>>) -> Option<Seq<u8>> {
    match o {
        Some(v) => Some(v@),
        None => None,
    }
}

/// Copies an optional string.
pub fn clone_opt_str(o: &Option<String>) -> (r: Option<String>)
    ensures
        opt_str(r) == opt_str(*o),
{
    match o {
        Some(s) => Some(s.clone()),
        None => None,
    }
}

/// Copies a byte vector.
pub fn clone_bytes(v: &Vec<u8>) -> (r: Vec<u8>)
    ensures
        r@ == v@,
{
    let mut r: Vec<u8> = Vec::new();
    let mut i: usize = 0;
    while i < v.len()
        invariant
            i <= v.len(),
            r@ == v@.subrange(0, i as int),
        decreases v.len() - i,
    {
        r.push(v[i]);
        i = i + 1;
        assert(r@ =~= v@.subrange(0, i as int));
    }
    assert(r@ =~= v@);
    r
}

/// Copies optional bytes.
pub fn clone_opt_bytes(o: &Option<Vec<u8>>) -> (r: Option<Vec<u8>>)
    ensures
        opt_bytes(r) == opt_bytes(*o),
{
    match o {
        Some(v) => Some(clone_bytes(v)),
        None => None,
    }
}

/// Metadata of one token or of a token series (NEP-177 `TokenMetadata`).
pub struct TokenMetadata {
    pub title: Option<String>,
    pub description: Option<String>,
    pub media: Option<String>,
    pub media_hash: Option<Vec<u8>>,
    pub copies: Option<u64>,
    pub issued_at: Option<String>,
    pub expires_at: Option<String>,
    pub starts_at: Option<String>,
    pub updated_at: Option<String>,
    pub extra: Option<String>,
    pub reference: Option<String>,
    pub reference_hash: Option<Vec<u8>>,
}

/// The mathematical value of a `TokenMetadata`.
pub struct TokenMetadataView {
    pub title: Option<Seq<char>>,
    pub description: Option<Seq<char>>,
    pub media: Option<Seq<char>>,
    pub media_hash: Option<Seq<u8>>,
    pub copies: Option<u64>,
    pub issued_at: Option<Seq<char>>,
    pub expires_at: Option<Seq<char>>,
    pub starts_at: Option<Seq<char>>,
    pub updated_at: Option<Seq<char>>,
    pub extra: Option<Seq<char>>,
    pub reference: Option<Seq<char>>,
    pub reference_hash: Option<Seq<u8>>,
}

impl View for TokenMetadata {
    type V = TokenMetadataView;

    open spec fn view(&self) -> TokenMetadataView {
        TokenMetadataView {
            title: opt_str(self.title),
            description: opt_str(self.description),
            media: opt_str(self.media),
            media_hash: opt_bytes(self.media_hash),
            copies: self.copies,
            issued_at: opt_str(self.issued_at),
            expires_at: opt_str(self.expires_at),
            starts_at: opt_str(self.starts_at),
            updated_at: opt_str(self.updated_at),
            extra: opt_str(self.extra),
            reference: opt_str(self.reference),
            reference_hash: opt_bytes(self.reference_hash),
        }
    }
}

impl TokenMetadata {
    /// A field-by-field copy.
    pub fn copy(&self) -> (r: TokenMetadata)
        ensures
            r@ == self@,
    {
        TokenMetadata {
            title: clone_opt_str(&self.title),
            description: clone_opt_str(&self.description),
            media: clone_opt_str(&self.media),
            media_hash: clone_opt_bytes(&self.media_hash),
            copies: self.copies,
            issued_at: clone_opt_str(&self.issued_at),
            expires_at: clone_opt_str(&self.expires_at),
            starts_at: clone_opt_str(&self.starts_at),
            updated_at: clone_opt_str(&self.updated_at),
            extra: clone_opt_str(&self.extra),
            reference: clone_opt_str(&self.reference),
            reference_hash: clone_opt_bytes(&self.reference_hash),
        }
    }

    /// Metadata with every field empty.
    pub fn empty() -> (r: TokenMetadata)
        ensures
            r@ == empty_token_metadata(),
    {
        TokenMetadata {
            title: None,
            description: None,
            media: None,
            media_hash: None,
            copies: None,
            issued_at: None,
            expires_at: None,
            starts_at: None,
            updated_at: None,
            extra: None,
            reference: None,
            reference_hash: None,
        }
    }
}

/// Metadata with every field empty.
pub open spec fn empty_token_metadata() -> TokenMetadataView {
    TokenMetadataView {
        title: None,
        description: None,
        media: None,
        media_hash: None,
        copies: None,
        issued_at: None,
        expires_at: None,
        starts_at: None,
        updated_at: None,
        extra: None,
        reference: None,
        reference_hash: None,
    }
}

/// The title edition `edition` of a series is shown with: the series' title,
/// `" #"` and the edition number, then `"/"` and the number of copies where the
/// series has one; no title where the series has none.
pub open spec fn edition_title(title: Option<Seq<char>>, edition: nat, copies: Option<u64>) -> Option<Seq<char>> {
    match title {
        Some(t) => Some(
            t + seq![' ', '#'] + decimal(edition) + match copies {
                Some(c) => seq!['/'] + decimal(c as nat),
                None => Seq::<char>::empty(),
            },
        ),
        None => None,
    }
}

/// Writes the title edition `edition` of a series is shown with.
pub fn edition_title_string(title: &Option<String>, edition: u64, copies: Option<u64>) -> (r: Option<String>)
    ensures
        opt_str(r) == edition_title(opt_str(*title), edition as nat, copies),
{
    match title {
        None => None,
        Some(t) => {
            let mut s = t.clone();
            proof {
                reveal_strlit(" #");
            }
            s.append(" #");
            let number = to_decimal(edition);
            s.append(number.as_str());
            match copies {
                Some(c) => {
                    proof {
                        reveal_strlit("/");
                    }
                    s.append("/");
                    let total = to_decimal(c);
                    s.append(total.as_str());
                },
                None => {
                    assert(s@ =~= s@ + Seq::<char>::empty());
                },
            }
            Some(s)
        },
    }
}

/// The metadata edition `edition` of a series is shown with: its own, with
/// reference, media, copies and extra taken from the series, and the series'
/// title numbered by the edition.
pub open spec fn merged_metadata(own: TokenMetadataView, series: TokenMetadataView, edition: nat) -> TokenMetadataView {
    TokenMetadataView {
        title: edition_title(series.title, edition, series.copies),
        reference: series.reference,
        media: series.media,
        copies: series.copies,
        extra: series.extra,
        ..own
    }
}

/// Metadata of the contract (NEP-177 `NFTContractMetadata`).
pub struct NFTContractMetadata {
    pub spec: String,
    pub name: String,
    pub symbol: String,
    pub icon: Option<String>,
    pub base_uri: Option<String>,
    pub reference: Option<String>,
    pub reference_hash: Option<Vec<u8>>,
}

/// The mathematical value of an `NFTContractMetadata`.
pub struct NFTContractMetadataView {
    pub spec: Seq<char>,
    pub name: Seq<char>,
    pub symbol: Seq<char>,
    pub icon: Option<Seq<char>>,
    pub base_uri: Option<Seq<char>>,
    pub reference: Option<Seq<char>>,
    pub reference_hash: Option<Seq<u8>>,
}

impl View for NFTContractMetadata {
    type V = NFTContractMetadataView;

    open spec fn view(&self) -> NFTContractMetadataView {
        NFTContractMetadataView {
            spec: self.spec@,
            name: self.name@,
            symbol: self.symbol@,
            icon: opt_str(self.icon),
            base_uri: opt_str(self.base_uri),
            reference: opt_str(self.reference),
            reference_hash: opt_bytes(self.reference_hash),
        }
    }
}

/// The version string of the metadata standard.
pub open spec fn nft_metadata_spec() -> Seq<char> {
    seq!['n', 'f', 't', '-', '1', '.', '0', '.', '0']
}

/// What the standard asks of contract metadata: the version string, a reference
/// exactly when there is a reference hash, and a hash of 32 bytes.
pub open spec fn valid_contract_metadata(m: NFTContractMetadataView) -> bool {
    &&& m.spec == nft_metadata_spec()
    &&& m.reference.is_some() == m.reference_hash.is_some()
    &&& (m.reference_hash matches Some(h) ==> h.len() == 32)
}

/// The version string of the metadata standard, `"nft-1.0.0"`.
pub fn nft_metadata_spec_string() -> (s: String)
    ensures
        s@ == nft_metadata_spec(),
{
    proof {
        reveal_strlit("nft-1.0.0");
    }
    String::from_str("nft-1.0.0")
}

impl NFTContractMetadata {
    /// Whether the metadata meets the standard's requirements.
    pub fn is_valid(&self) -> (r: bool)
        ensures
            r == valid_contract_metadata(self@),
    {
        let version = nft_metadata_spec_string();
        if self.spec != version {
            return false;
        }
        if self.reference.is_some() != self.reference_hash.is_some() {
            return false;
        }
        match &self.reference_hash {
            Some(h) => h.len() == 32,
            None => true,
        }
    }

    /// A field-by-field copy.
    pub fn copy(&self) -> (r: NFTContractMetadata)
        ensures
            r@ == self@,
    {
        NFTContractMetadata {
            spec: self.spec.clone(),
            name: self.name.clone(),
            symbol: self.symbol.clone(),
            icon: clone_opt_str(&self.icon),
            base_uri: clone_opt_str(&self.base_uri),
            reference: clone_opt_str(&self.reference),
            reference_hash: clone_opt_bytes(&self.reference_hash),
        }
    }
}

} // verus!
