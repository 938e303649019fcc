//! Searches in the contract's lists.
use vstd::prelude::*;
use crate::state::{
    Approval, OwnerTokens, SeriesFee, SeriesView, TokenRecord, TokenSeries, TokenView, series_pos, token_pos,
};

verus! {

/// Series with pairwise distinct ids.
pub open spec fn series_ids_distinct(s: Seq<SeriesView>) -> bool {
    forall|i: int, j: int| 0 <= i < s.len() && 0 <= j < s.len() && i != j ==> #[trigger] s[i].id != #[trigger] s[j].id
}

/// Tokens with pairwise distinct ids.
pub open spec fn token_ids_distinct(t: Seq<TokenView>) -> bool {
    forall|i: int, j: int| 0 <= i < t.len() && 0 <= j < t.len() && i != j ==> #[trigger] t[i].id != #[trigger] t[j].id
}

/// With distinct ids, the position of a series' id is where it stands.
pub proof fn lemma_series_pos(s: Seq<SeriesView>, i: int)
    requires
        series_ids_distinct(s),
        0 <= i < s.len(),
    ensures
        series_pos(s, s[i].id) == Some(i),
{
}

/// With distinct ids, the position of a token's id is where it stands.
pub proof fn lemma_token_pos(t: Seq<TokenView>, k: int)
    requires
        token_ids_distinct(t),
        0 <= k < t.len(),
    ensures
        token_pos(t, t[k].id) == Some(k),
{
}

/// Finds the series named `id`.
pub fn find_series(series: &Vec<TokenSeries>, id: &String) -> (r: Option<usize>)
    ensures
        match r {
            Some(i) => i < series@.len() && series@[i as int]@.id == id@
                && forall|j: int| 0 <= j < i ==> #[trigger] series@[j]@.id != id@,
            None => forall|i: int| 0 <= i < series@.len() ==> #[trigger] series@[i]@.id != id@,
        },
{
    let mut i: usize = 0;
    while i < series.len()
        invariant
            i <= series@.len(),
            forall|j: int| 0 <= j < i ==> #[trigger] series@[j]@.id != id@,
        decreases series.len() - i,
    {
        if series[i].token_series_id == *id {
            return Some(i);
        }
        i = i + 1;
    }
    None
}

/// Finds the token named `id`.
pub fn find_token(tokens: &Vec<TokenRecord>, id: &String) -> (r: Option<usize>)
    ensures
        match r {
            Some(k) => k < tokens@.len() && tokens@[k as int]@.id == id@
                && forall|j: int| 0 <= j < k ==> #[trigger] tokens@[j]@.id != id@,
            None => forall|k: int| 0 <= k < tokens@.len() ==> #[trigger] tokens@[k]@.id != id@,
        },
{
    let mut k: usize = 0;
    while k < tokens.len()
        invariant
            k <= tokens@.len(),
            forall|j: int| 0 <= j < k ==> #[trigger] tokens@[j]@.id != id@,
        decreases tokens.len() - k,
    {
        if tokens[k].token_id == *id {
            return Some(k);
        }
        k = k + 1;
    }
    None
}

/// Finds the list of `owner`'s tokens.
pub fn find_owner(lists: &Vec<OwnerTokens>, owner: &String) -> (r: Option<usize>)
    ensures
        match r {
            Some(j) => j < lists@.len() && lists@[j as int]@.0 == owner@
                && forall|l: int| 0 <= l < j ==> #[trigger] lists@[l]@.0 != owner@,
            None => forall|j: int| 0 <= j < lists@.len() ==> #[trigger] lists@[j]@.0 != owner@,
        },
{
    let mut j: usize = 0;
    while j < lists.len()
        invariant
            j <= lists@.len(),
            forall|l: int| 0 <= l < j ==> #[trigger] lists@[l]@.0 != owner@,
        decreases lists.len() - j,
    {
        if lists[j].owner_id == *owner {
            return Some(j);
        }
        j = j + 1;
    }
    None
}

/// Finds `id` in a list of strings.
pub fn find_str(list: &Vec<String>, id: &String) -> (r: Option<usize>)
    ensures
        match r {
            Some(j) => j < list@.len() && list@[j as int]@ == id@
                && forall|l: int| 0 <= l < j ==> #[trigger] list@[l]@ != id@,
            None => forall|j: int| 0 <= j < list@.len() ==> #[trigger] list@[j]@ != id@,
        },
{
    let mut j: usize = 0;
    while j < list.len()
        invariant
            j <= list@.len(),
            forall|l: int| 0 <= l < j ==> #[trigger] list@[l]@ != id@,
        decreases list.len() - j,
    {
        if list[j] == *id {
            return Some(j);
        }
        j = j + 1;
    }
    None
}

/// Finds the approval of `account`.
pub fn find_approval(list: &Vec<Approval>, account: &String) -> (r: Option<usize>)
    ensures
        match r {
            Some(j) => j < list@.len() && list@[j as int]@.0 == account@
                && forall|l: int| 0 <= l < j ==> #[trigger] list@[l]@.0 != account@,
            None => forall|j: int| 0 <= j < list@.len() ==> #[trigger] list@[j]@.0 != account@,
        },
{
    let mut j: usize = 0;
    while j < list.len()
        invariant
            j <= list@.len(),
            forall|l: int| 0 <= l < j ==> #[trigger] list@[l]@.0 != account@,
        decreases list.len() - j,
    {
        if list[j].account_id == *account {
            return Some(j);
        }
        j = j + 1;
    }
    None
}

/// Finds the fee recorded for the series `id`.
pub fn find_series_fee(list: &Vec<SeriesFee>, id: &String) -> (r: Option<usize>)
    ensures
        match r {
            Some(j) => j < list@.len() && list@[j as int]@.0 == id@
                && forall|l: int| 0 <= l < j ==> #[trigger] list@[l]@.0 != id@,
            None => forall|j: int| 0 <= j < list@.len() ==> #[trigger] list@[j]@.0 != id@,
        },
{
    let mut j: usize = 0;
    while j < list.len()
        invariant
            j <= list@.len(),
            forall|l: int| 0 <= l < j ==> #[trigger] list@[l]@.0 != id@,
        decreases list.len() - j,
    {
        if list[j].token_series_id == *id {
            return Some(j);
        }
        j = j + 1;
    }
    None
}

} // verus!
