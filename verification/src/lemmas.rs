//! Facts that follow from the contract's invariant.
use vstd::prelude::*;
use crate::ids::{lemma_decimal_injective, series_id};
use crate::lookup::{series_ids_distinct, token_ids_distinct};
use crate::order::{lemma_str_lt_ne, str_lt};
use crate::state::{ContractView, TokenView, owned_ids, tokens_sorted};

verus! {

/// Series ids are pairwise distinct.
pub proof fn lemma_series_ids_distinct(v: ContractView)
    requires
        v.wf(),
    ensures
        series_ids_distinct(v.series),
{
    assert forall|i: int, j: int| 0 <= i < v.series.len() && 0 <= j < v.series.len() && i != j
        implies #[trigger] v.series[i].id != #[trigger] v.series[j].id by {
        assert(v.series_wf(i));
        assert(v.series_wf(j));
        if series_id(i) == series_id(j) {
            lemma_decimal_injective((i + 1) as nat, (j + 1) as nat);
        }
    }
}

/// Sorted tokens have pairwise distinct ids.
pub proof fn lemma_sorted_ids_distinct(t: Seq<TokenView>)
    requires
        tokens_sorted(t),
    ensures
        token_ids_distinct(t),
{
    assert forall|i: int, j: int| 0 <= i < t.len() && 0 <= j < t.len() && i != j
        implies #[trigger] t[i].id != #[trigger] t[j].id by {
        if i < j {
            lemma_str_lt_ne(t[i].id, t[j].id);
        } else {
            lemma_str_lt_ne(t[j].id, t[i].id);
        }
    }
}

} // verus!

verus! {

/// The invariant does not depend on the settings, the metadata or the admins'
/// order, only on what they contain.
pub proof fn lemma_wf_frame(a: ContractView, b: ContractView)
    requires
        a.wf(),
        b.series == a.series,
        b.tokens == a.tokens,
        b.tokens_per_owner == a.tokens_per_owner,
        b.market_fees == a.market_fees,
        b.admins.no_duplicates(),
    ensures
        b.wf(),
{
    assert forall|i: int| 0 <= i < b.series.len() implies #[trigger] b.series_wf(i) by {
        assert(a.series_wf(i));
    }
    assert forall|k: int| 0 <= k < b.tokens.len() implies #[trigger] b.token_wf(k) by {
        assert(a.token_wf(k));
    }
    assert forall|i: int, e: int| 0 <= i < b.series.len() && 1 <= e <= b.series[i].tokens.len()
        implies #[trigger] b.minted(i, e as nat) by {
        assert(a.minted(i, e as nat));
    }
}

} // verus!

verus! {

/// Inserting a token where it belongs in id order keeps the tokens ordered.
pub proof fn lemma_sorted_insert(t: Seq<TokenView>, p: int, x: TokenView)
    requires
        tokens_sorted(t),
        0 <= p <= t.len(),
        forall|j: int| 0 <= j < p ==> str_lt(#[trigger] t[j].id, x.id),
        forall|j: int| p <= j < t.len() ==> str_lt(x.id, #[trigger] t[j].id),
    ensures
        tokens_sorted(t.insert(p, x)),
{
    let u = t.insert(p, x);
    assert forall|a: int, b: int| 0 <= a < b < u.len() implies str_lt(#[trigger] u[a].id, #[trigger] u[b].id) by {
        if a < p {
            if b > p {
                assert(u[b] == t[b - 1]);
            }
        } else if a == p {
            assert(u[b] == t[b - 1]);
        } else {
            assert(u[a] == t[a - 1]);
            assert(u[b] == t[b - 1]);
        }
    }
}

} // verus!

verus! {

/// Inserting a token adds its id to what its owner holds, and to nobody else's.
pub proof fn lemma_owned_ids_insert(t: Seq<TokenView>, p: int, x: TokenView, o: Seq<char>)
    requires
        0 <= p <= t.len(),
    ensures
        owned_ids(t.insert(p, x), o) == if x.owner_id == o {
            owned_ids(t, o).insert(x.id)
        } else {
            owned_ids(t, o)
        },
{
    let u = t.insert(p, x);
    let want = if x.owner_id == o { owned_ids(t, o).insert(x.id) } else { owned_ids(t, o) };
    assert forall|id: Seq<char>| owned_ids(u, o).contains(id) implies want.contains(id) by {
        let k = choose|k: int| 0 <= k < u.len() && #[trigger] u[k].id == id && u[k].owner_id == o;
        if k < p {
            assert(t[k] == u[k]);
        } else if k > p {
            assert(t[k - 1] == u[k]);
        }
    }
    assert forall|id: Seq<char>| want.contains(id) implies owned_ids(u, o).contains(id) by {
        if x.owner_id == o && id == x.id {
            assert(u[p] == x);
        } else {
            let k = choose|k: int| 0 <= k < t.len() && #[trigger] t[k].id == id && t[k].owner_id == o;
            if k < p {
                assert(u[k] == t[k]);
            } else {
                assert(u[k + 1] == t[k]);
            }
        }
    }
    assert(owned_ids(u, o) =~= want);
}

/// Changing the owner of the token at position `k` moves its id from the old
/// owner's holdings to the new owner's.
pub proof fn lemma_owned_ids_update(t: Seq<TokenView>, k: int, x: TokenView, o: Seq<char>)
    requires
        0 <= k < t.len(),
        x.id == t[k].id,
        forall|i: int, j: int| 0 <= i < t.len() && 0 <= j < t.len() && i != j ==> #[trigger] t[i].id != #[trigger] t[j].id,
    ensures
        owned_ids(t.update(k, x), o) == if x.owner_id == o {
            owned_ids(t, o).insert(x.id)
        } else {
            owned_ids(t, o).remove(x.id)
        },
{
    let u = t.update(k, x);
    let want = if x.owner_id == o { owned_ids(t, o).insert(x.id) } else { owned_ids(t, o).remove(x.id) };
    assert forall|id: Seq<char>| owned_ids(u, o).contains(id) implies want.contains(id) by {
        let j = choose|j: int| 0 <= j < u.len() && #[trigger] u[j].id == id && u[j].owner_id == o;
        if j != k {
            assert(t[j] == u[j]);
        }
    }
    assert forall|id: Seq<char>| want.contains(id) implies owned_ids(u, o).contains(id) by {
        if x.owner_id == o && id == x.id {
            assert(u[k] == x);
        } else {
            let j = choose|j: int| 0 <= j < t.len() && #[trigger] t[j].id == id && t[j].owner_id == o;
            assert(j != k);
            assert(u[j] == t[j]);
        }
    }
    assert(owned_ids(u, o) =~= want);
}

} // verus!

verus! {

/// The elements of `s.push(x)` are those of `s` and `x`.
pub proof fn lemma_push_to_set<A>(s: Seq<A>, x: A)
    ensures
        s.push(x).to_set() == s.to_set().insert(x),
{
    let u = s.push(x);
    assert forall|a: A| u.to_set().contains(a) implies s.to_set().insert(x).contains(a) by {
        let i = choose|i: int| 0 <= i < u.len() && u[i] == a;
        if i < s.len() {
            assert(s[i] == a);
            assert(s.contains(a));
        }
    }
    assert forall|a: A| s.to_set().insert(x).contains(a) implies u.to_set().contains(a) by {
        if a == x {
            assert(u[s.len() as int] == x);
            assert(u.contains(a));
        } else {
            let i = choose|i: int| 0 <= i < s.len() && s[i] == a;
            assert(u[i] == a);
            assert(u.contains(a));
        }
    }
    assert(u.to_set() =~= s.to_set().insert(x));
}

} // verus!
