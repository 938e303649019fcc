//! Identifiers of token series and of tokens: a series is named by its position,
//! counted from 1, in decimal; a token by its series, `:` and its edition.
use vstd::prelude::*;
use vstd::string::*;
use crate::decimal::{decimal, digit_char, to_decimal};

verus! {

/// The character between the series and the edition in a token id.
pub open spec fn delimiter() -> char {
    ':'
}

/// The id of the series at position `i` (counted from 0).
pub open spec fn series_id(i: int) -> Seq<char> {
    decimal((i + 1) as nat)
}

/// The id of edition `edition` of the series named `sid`.
pub open spec fn token_id(sid: Seq<char>, edition: nat) -> Seq<char> {
    sid.push(delimiter()) + decimal(edition)
}

/// A sequence of characters with no delimiter in it.
pub open spec fn no_delimiter(s: Seq<char>) -> bool {
    forall|i: int| 0 <= i < s.len() ==> s[i] != delimiter()
}

/// The part of a token id before its first delimiter (the whole id where there is
/// none): what `token_id.split(':').next()` gives.
pub open spec fn series_part(id: Seq<char>) -> Seq<char> {
    if exists|i: int| 0 <= i < id.len() && id[i] == delimiter() {
        let i = choose|i: int|
            0 <= i < id.len() && id[i] == delimiter() && forall|j: int| 0 <= j < i ==> id[j] != delimiter();
        id.subrange(0, i)
    } else {
        id
    }
}

pub proof fn lemma_decimal_len(n: nat)
    ensures
        decimal(n).len() >= 1,
        n >= 10 ==> decimal(n).len() >= 2,
        n >= 10 ==> decimal(n).drop_last() == decimal(n / 10),
        decimal(n).last() == digit_char(n % 10),
    decreases n,
{
    if n >= 10 {
        lemma_decimal_len(n / 10);
    }
}

/// A decimal notation holds no delimiter.
pub proof fn lemma_decimal_no_delimiter(n: nat)
    ensures
        no_delimiter(decimal(n)),
    decreases n,
{
    if n >= 10 {
        lemma_decimal_no_delimiter(n / 10);
        assert forall|i: int| 0 <= i < decimal(n).len() implies decimal(n)[i] != delimiter() by {
            if i < decimal(n / 10).len() {
                assert(decimal(n)[i] == decimal(n / 10)[i]);
            }
        }
    }
}

proof fn lemma_digit_char_injective(a: nat, b: nat)
    requires
        a < 10,
        b < 10,
        digit_char(a) == digit_char(b),
    ensures
        a == b,
{
}

/// Different numbers have different decimal notations.
pub proof fn lemma_decimal_injective(a: nat, b: nat)
    requires
        decimal(a) == decimal(b),
    ensures
        a == b,
    decreases a,
{
    lemma_decimal_len(a);
    lemma_decimal_len(b);
    lemma_digit_char_injective(a % 10, b % 10);
    if a >= 10 && b >= 10 {
        lemma_decimal_injective(a / 10, b / 10);
    }
}

/// A token id tells its series id and its edition apart.
pub proof fn lemma_token_id_injective(s1: Seq<char>, e1: nat, s2: Seq<char>, e2: nat)
    requires
        no_delimiter(s1),
        no_delimiter(s2),
        token_id(s1, e1) == token_id(s2, e2),
    ensures
        s1 == s2,
        e1 == e2,
{
    let t = token_id(s1, e1);
    if s1.len() < s2.len() {
        assert(t[s1.len() as int] == delimiter());
        assert(token_id(s2, e2)[s1.len() as int] == s2[s1.len() as int]);
    } else if s2.len() < s1.len() {
        assert(token_id(s2, e2)[s2.len() as int] == delimiter());
        assert(t[s2.len() as int] == s1[s2.len() as int]);
    } else {
        assert(s1 =~= t.subrange(0, s1.len() as int));
        assert(s2 =~= token_id(s2, e2).subrange(0, s2.len() as int));
        assert(decimal(e1) =~= t.subrange(s1.len() as int + 1, t.len() as int));
        assert(decimal(e2) =~= token_id(s2, e2).subrange(s2.len() as int + 1, t.len() as int));
        lemma_decimal_injective(e1, e2);
    }
}

/// The series part of a token id is the id of its series.
pub proof fn lemma_series_part_of_token_id(sid: Seq<char>, edition: nat)
    requires
        no_delimiter(sid),
    ensures
        series_part(token_id(sid, edition)) == sid,
{
    let id = token_id(sid, edition);
    let k = sid.len() as int;
    assert(id[k] == delimiter());
    let i = choose|i: int|
        0 <= i < id.len() && id[i] == delimiter() && forall|j: int| 0 <= j < i ==> id[j] != delimiter();
    assert(forall|j: int| 0 <= j < k ==> id[j] == sid[j]);
    assert(0 <= i < id.len() && id[i] == delimiter() && forall|j: int| 0 <= j < i ==> id[j] != delimiter()) by {
        assert(forall|j: int| 0 <= j < k ==> #[trigger] id[j] != delimiter());
    }
    if i < k {
        assert(id[i] == sid[i]);
    }
    if i > k {
        assert(id[k] != delimiter());
    }
    assert(id.subrange(0, k) =~= sid);
}

/// The delimiter as a string.
fn delimiter_str() -> (r: &'static str)
    ensures
        r@ == seq![delimiter()],
{
    proof {
        reveal_strlit(":");
    }
    ":"
}

/// Writes the id of edition `edition` of series `sid`, as
/// `format!("{}{}{}", sid, ':', edition)` does.
pub fn make_token_id(sid: &String, edition: u64) -> (r: String)
    ensures
        r@ == token_id(sid@, edition as nat),
{
    let mut r = sid.clone();
    r.append(delimiter_str());
    let e = to_decimal(edition);
    r.append(e.as_str());
    assert(r@ =~= token_id(sid@, edition as nat));
    r
}

/// Writes the id of the series at position `i`.
pub fn make_series_id(i: u64) -> (r: String)
    requires
        i < u64::MAX,
    ensures
        r@ == series_id(i as int),
{
    to_decimal(i + 1)
}

} // verus!
