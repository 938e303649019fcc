//! The per-owner token lists: how they change and why they stay in step with
//! the owners of the tokens.
use vstd::prelude::*;
use crate::lemmas::lemma_push_to_set;
use crate::lookup::find_owner;
use crate::state::{ContractView, OwnerTokens, key_pos, keys_distinct, owned_ids, strs};

verus! {

/// Per-owner lists, as pairs of an owner and its token ids.
pub type OwnerLists = Seq<(Seq<char>, Seq<Seq<char>>)>;

/// The ids listed for `owner` (none where it has no list).
pub open spec fn list_set(l: OwnerLists, owner: Seq<char>) -> Set<Seq<char>> {
    match key_pos(l, owner) {
        Some(j) => l[j].1.to_set(),
        None => Set::empty(),
    }
}

/// Every list is non-empty and without repeats.
pub open spec fn entries_ok(l: OwnerLists) -> bool {
    forall|j: int| 0 <= j < l.len() ==> (#[trigger] l[j]).1.len() > 0 && l[j].1.no_duplicates()
}

/// The position of `id` in `ids`.
pub open spec fn id_pos(ids: Seq<Seq<char>>, id: Seq<char>) -> int {
    choose|i: int| 0 <= i < ids.len() && ids[i] == id
}

/// `ids` without the element at `i`, the last element taking its place.
pub open spec fn swap_removed(ids: Seq<Seq<char>>, i: int) -> Seq<Seq<char>> {
    ids.update(i, ids.last()).drop_last()
}

/// The lists after `id` leaves the list of `owner`; a list left empty goes.
pub open spec fn lists_after_remove(l: OwnerLists, owner: Seq<char>, id: Seq<char>) -> OwnerLists {
    match key_pos(l, owner) {
        Some(j) => {
            let ids = swap_removed(l[j].1, id_pos(l[j].1, id));
            if ids.len() == 0 {
                l.remove(j)
            } else {
                l.update(j, (owner, ids))
            }
        },
        None => l,
    }
}

/// The lists after `id` joins the list of `owner`.
pub open spec fn lists_after_add(l: OwnerLists, owner: Seq<char>, id: Seq<char>) -> OwnerLists {
    match key_pos(l, owner) {
        Some(j) => l.update(j, (owner, l[j].1.push(id))),
        None => l.push((owner, seq![id])),
    }
}

/// Removing one element, the last taking its place.
pub proof fn lemma_swap_removed(ids: Seq<Seq<char>>, i: int)
    requires
        ids.no_duplicates(),
        0 <= i < ids.len(),
    ensures
        swap_removed(ids, i).no_duplicates(),
        swap_removed(ids, i).len() == ids.len() - 1,
        swap_removed(ids, i).to_set() == ids.to_set().remove(ids[i]),
{
    let r = swap_removed(ids, i);
    let last = ids.len() - 1;
    assert forall|a: int, b: int| 0 <= a < r.len() && 0 <= b < r.len() && a != b implies r[a] != r[b] by {
        let a0 = if a == i { last } else { a };
        let b0 = if b == i { last } else { b };
        assert(r[a] == ids[a0]);
        assert(r[b] == ids[b0]);
    }
    assert forall|x: Seq<char>| r.to_set().contains(x) implies ids.to_set().remove(ids[i]).contains(x) by {
        let a = choose|a: int| 0 <= a < r.len() && r[a] == x;
        let a0 = if a == i { last } else { a };
        assert(ids[a0] == x);
        assert(ids.contains(x));
    }
    assert forall|x: Seq<char>| ids.to_set().remove(ids[i]).contains(x) implies r.to_set().contains(x) by {
        let a = choose|a: int| 0 <= a < ids.len() && ids[a] == x;
        assert(a != i);
        if a == last {
            assert(r[i] == x);
            assert(r.contains(x));
        } else {
            assert(r[a] == x);
            assert(r.contains(x));
        }
    }
    assert(r.to_set() =~= ids.to_set().remove(ids[i]));
}

/// The position of a listed id.
pub proof fn lemma_id_pos(ids: Seq<Seq<char>>, id: Seq<char>)
    requires
        ids.to_set().contains(id),
    ensures
        0 <= id_pos(ids, id) < ids.len(),
        ids[id_pos(ids, id)] == id,
{
}

/// Taking an id out of a list.
pub proof fn lemma_lists_after_remove(l: OwnerLists, owner: Seq<char>, id: Seq<char>)
    requires
        keys_distinct(l),
        entries_ok(l),
        list_set(l, owner).contains(id),
    ensures
        keys_distinct(lists_after_remove(l, owner, id)),
        entries_ok(lists_after_remove(l, owner, id)),
        forall|x: Seq<char>| #[trigger] list_set(lists_after_remove(l, owner, id), x)
            == if x == owner { list_set(l, x).remove(id) } else { list_set(l, x) },
{
    let j = key_pos(l, owner)->0;
    let ids = l[j].1;
    let i = id_pos(ids, id);
    lemma_id_pos(ids, id);
    lemma_swap_removed(ids, i);
    let ids2 = swap_removed(ids, i);
    let l1 = lists_after_remove(l, owner, id);
    if ids2.len() == 0 {
        assert(l1 == l.remove(j));
        assert(keys_distinct(l1)) by {
            assert forall|a: int, b: int| 0 <= a < l1.len() && 0 <= b < l1.len() && a != b implies #[trigger] l1[a].0 != #[trigger] l1[b].0 by {
                let a0 = if a < j { a } else { a + 1 };
                let b0 = if b < j { b } else { b + 1 };
                assert(l1[a] == l[a0]);
                assert(l1[b] == l[b0]);
            }
        }
        assert(entries_ok(l1)) by {
            assert forall|a: int| 0 <= a < l1.len() implies (#[trigger] l1[a]).1.len() > 0 && l1[a].1.no_duplicates() by {
                let a0 = if a < j { a } else { a + 1 };
                assert(l1[a] == l[a0]);
            }
        }
        assert forall|x: Seq<char>| #[trigger] list_set(l1, x) == if x == owner { list_set(l, x).remove(id) } else { list_set(l, x) } by {
            if x == owner {
                if key_pos(l1, x) is Some {
                    let a = key_pos(l1, x)->0;
                    let a0 = if a < j { a } else { a + 1 };
                    assert(l1[a] == l[a0]);
                    assert(false);
                }
                assert(ids.to_set().remove(id) =~= ids2.to_set());
                assert(ids2.to_set() =~= Set::empty()) by {
                    assert forall|y: Seq<char>| !ids2.to_set().contains(y) by {}
                }
            } else {
                match key_pos(l, x) {
                    Some(a0) => {
                        assert(a0 != j);
                        let a = if a0 < j { a0 } else { a0 - 1 };
                        assert(l1[a] == l[a0]);
                        assert(key_pos(l1, x) == Some(a));
                    },
                    None => {
                        if key_pos(l1, x) is Some {
                            let a = key_pos(l1, x)->0;
                            let a0 = if a < j { a } else { a + 1 };
                            assert(l1[a] == l[a0]);
                        }
                    },
                }
            }
        }
    } else {
        assert(l1 == l.update(j, (owner, ids2)));
        assert(keys_distinct(l1)) by {
            assert forall|a: int, b: int| 0 <= a < l1.len() && 0 <= b < l1.len() && a != b implies #[trigger] l1[a].0 != #[trigger] l1[b].0 by {
                assert(l1[a].0 == l[a].0);
                assert(l1[b].0 == l[b].0);
            }
        }
        assert(entries_ok(l1)) by {
            assert forall|a: int| 0 <= a < l1.len() implies (#[trigger] l1[a]).1.len() > 0 && l1[a].1.no_duplicates() by {
                if a != j {
                    assert(l1[a] == l[a]);
                }
            }
        }
        assert forall|x: Seq<char>| #[trigger] list_set(l1, x) == if x == owner { list_set(l, x).remove(id) } else { list_set(l, x) } by {
            if x == owner {
                assert(l1[j].0 == owner);
                assert(key_pos(l1, x) == Some(j));
            } else {
                match key_pos(l, x) {
                    Some(a) => {
                        assert(l1[a] == l[a]);
                        assert(key_pos(l1, x) == Some(a));
                    },
                    None => {
                        if key_pos(l1, x) is Some {
                            let a = key_pos(l1, x)->0;
                            assert(l1[a].0 == l[a].0);
                        }
                    },
                }
            }
        }
    }
}

/// Putting an id into a list.
pub proof fn lemma_lists_after_add(l: OwnerLists, owner: Seq<char>, id: Seq<char>)
    requires
        keys_distinct(l),
        entries_ok(l),
        !list_set(l, owner).contains(id),
    ensures
        keys_distinct(lists_after_add(l, owner, id)),
        entries_ok(lists_after_add(l, owner, id)),
        forall|x: Seq<char>| #[trigger] list_set(lists_after_add(l, owner, id), x)
            == if x == owner { list_set(l, x).insert(id) } else { list_set(l, x) },
{
    let l2 = lists_after_add(l, owner, id);
    match key_pos(l, owner) {
        Some(j) => {
            let ids = l[j].1;
            assert(l2 == l.update(j, (owner, ids.push(id))));
            lemma_push_to_set(ids, id);
            assert(keys_distinct(l2)) by {
                assert forall|a: int, b: int| 0 <= a < l2.len() && 0 <= b < l2.len() && a != b implies #[trigger] l2[a].0 != #[trigger] l2[b].0 by {
                    assert(l2[a].0 == l[a].0);
                    assert(l2[b].0 == l[b].0);
                }
            }
            assert(entries_ok(l2)) by {
                assert forall|a: int| 0 <= a < l2.len() implies (#[trigger] l2[a]).1.len() > 0 && l2[a].1.no_duplicates() by {
                    if a != j {
                        assert(l2[a] == l[a]);
                    } else {
                        assert forall|x: int, y: int| 0 <= x < ids.push(id).len() && 0 <= y < ids.push(id).len() && x != y
                            implies ids.push(id)[x] != ids.push(id)[y] by {
                            if x < ids.len() && y < ids.len() {
                            } else if x < ids.len() {
                                assert(ids.contains(ids[x]));
                            } else {
                                assert(ids.contains(ids[y]));
                            }
                        }
                    }
                }
            }
            assert forall|x: Seq<char>| #[trigger] list_set(l2, x) == if x == owner { list_set(l, x).insert(id) } else { list_set(l, x) } by {
                if x == owner {
                    assert(l2[j].0 == owner);
                    assert(key_pos(l2, x) == Some(j));
                } else {
                    match key_pos(l, x) {
                        Some(a) => {
                            assert(l2[a] == l[a]);
                            assert(key_pos(l2, x) == Some(a));
                        },
                        None => {
                            if key_pos(l2, x) is Some {
                                let a = key_pos(l2, x)->0;
                                assert(l2[a].0 == l[a].0);
                            }
                        },
                    }
                }
            }
        },
        None => {
            assert(l2 == l.push((owner, seq![id])));
            assert(keys_distinct(l2)) by {
                assert forall|a: int, b: int| 0 <= a < l2.len() && 0 <= b < l2.len() && a != b implies #[trigger] l2[a].0 != #[trigger] l2[b].0 by {
                    if a < l.len() {
                        assert(l2[a].0 == l[a].0);
                    }
                    if b < l.len() {
                        assert(l2[b].0 == l[b].0);
                    }
                }
            }
            assert(entries_ok(l2)) by {
                assert forall|a: int| 0 <= a < l2.len() implies (#[trigger] l2[a]).1.len() > 0 && l2[a].1.no_duplicates() by {
                    if a < l.len() {
                        assert(l2[a] == l[a]);
                    }
                }
            }
            assert forall|x: Seq<char>| #[trigger] list_set(l2, x) == if x == owner { list_set(l, x).insert(id) } else { list_set(l, x) } by {
                if x == owner {
                    assert(l2[l.len() as int].0 == owner);
                    assert(key_pos(l2, x) == Some(l.len() as int));
                    assert(seq![id].to_set() =~= Set::<Seq<char>>::empty().insert(id)) by {
                        assert(seq![id][0] == id);
                    }
                } else {
                    match key_pos(l, x) {
                        Some(a) => {
                            assert(l2[a] == l[a]);
                            assert(key_pos(l2, x) == Some(a));
                        },
                        None => {
                            if key_pos(l2, x) is Some {
                                let a = key_pos(l2, x)->0;
                                assert(l2[a].0 == l[a].0);
                            }
                        },
                    }
                }
            }
        },
    }
}

/// The lists are in step with the owners exactly when each account's list holds
/// what it owns.
pub proof fn lemma_owners_wf_iff(v: ContractView)
    ensures
        v.owners_wf() <==> {
            &&& keys_distinct(v.tokens_per_owner)
            &&& entries_ok(v.tokens_per_owner)
            &&& forall|x: Seq<char>| #[trigger] list_set(v.tokens_per_owner, x) == owned_ids(v.tokens, x)
        },
{
    let l = v.tokens_per_owner;
    if v.owners_wf() {
        assert(entries_ok(l)) by {
            assert forall|j: int| 0 <= j < l.len() implies (#[trigger] l[j]).1.len() > 0 && l[j].1.no_duplicates() by {
                let (o, ids) = l[j];
            }
        }
        assert forall|x: Seq<char>| #[trigger] list_set(l, x) == owned_ids(v.tokens, x) by {
            match key_pos(l, x) {
                Some(j) => {
                    let (o, ids) = l[j];
                },
                None => {
                    assert forall|id: Seq<char>| !owned_ids(v.tokens, x).contains(id) by {
                        if owned_ids(v.tokens, x).contains(id) {
                            let k = choose|k: int| 0 <= k < v.tokens.len() && #[trigger] v.tokens[k].id == id && v.tokens[k].owner_id == x;
                            assert(key_pos(l, v.tokens[k].owner_id) is Some);
                        }
                    }
                    assert(owned_ids(v.tokens, x) =~= Set::empty());
                },
            }
        }
    }
    if keys_distinct(l) && entries_ok(l) && forall|x: Seq<char>| #[trigger] list_set(l, x) == owned_ids(v.tokens, x) {
        assert forall|j: int| 0 <= j < l.len() implies ({
            let (o, ids) = #[trigger] l[j];
            &&& ids.len() > 0
            &&& ids.no_duplicates()
            &&& ids.to_set() == owned_ids(v.tokens, o)
        }) by {
            assert(key_pos(l, l[j].0) == Some(j));
            assert(list_set(l, l[j].0) == owned_ids(v.tokens, l[j].0));
        }
        assert forall|k: int| 0 <= k < v.tokens.len() implies key_pos(l, #[trigger] v.tokens[k].owner_id) is Some by {
            let o = v.tokens[k].owner_id;
            assert(owned_ids(v.tokens, o).contains(v.tokens[k].id));
            assert(list_set(l, o).contains(v.tokens[k].id));
        }
    }
}

/// Adds `id` to the tokens of `owner`.
pub fn add_token_to_owner(lists: &mut Vec<OwnerTokens>, owner: String, id: String)
    requires
        keys_distinct(old(lists)@.map_values(|o: OwnerTokens| o@)),
    ensures
        final(lists)@.map_values(|o: OwnerTokens| o@) == lists_after_add(
            old(lists)@.map_values(|o: OwnerTokens| o@),
            owner@,
            id@,
        ),
{
    let ghost l = old(lists)@.map_values(|o: OwnerTokens| o@);
    match find_owner(lists, &owner) {
        Some(j) => {
            assert(l[j as int].0 == owner@);
            assert(key_pos(l, owner@) == Some(j as int));
            lists[j].token_ids.push(id);
            assert(strs(lists@[j as int].token_ids@) =~= l[j as int].1.push(id@));
            assert(lists@.map_values(|o: OwnerTokens| o@) =~= l.update(j as int, (owner@, l[j as int].1.push(id@))));
        },
        None => {
            assert(key_pos(l, owner@) is None);
            let mut ids: Vec<String> = Vec::new();
            ids.push(id);
            lists.push(OwnerTokens { owner_id: owner, token_ids: ids });
            assert(strs(ids@) =~= seq![id@]);
            assert(lists@.map_values(|o: OwnerTokens| o@) =~= l.push((owner@, seq![id@])));
        },
    }
}

} // verus!

verus! {

/// Takes `id` out of the list of `owner`, the list's last id taking its place;
/// a list left empty goes.
pub fn remove_token_from_owner(lists: &mut Vec<OwnerTokens>, owner: &String, id: &String)
    requires
        keys_distinct(old(lists)@.map_values(|o: OwnerTokens| o@)),
        entries_ok(old(lists)@.map_values(|o: OwnerTokens| o@)),
        list_set(old(lists)@.map_values(|o: OwnerTokens| o@), owner@).contains(id@),
    ensures
        final(lists)@.map_values(|o: OwnerTokens| o@) == lists_after_remove(
            old(lists)@.map_values(|o: OwnerTokens| o@),
            owner@,
            id@,
        ),
{
    let ghost l = old(lists)@.map_values(|o: OwnerTokens| o@);
    let j = match find_owner(lists, owner) {
        Some(j) => j,
        None => {
            assert(key_pos(l, owner@) is None);
            return;
        },
    };
    assert(l[j as int].0 == owner@);
    assert(key_pos(l, owner@) == Some(j as int));
    let ghost ids = l[j as int].1;
    assert(ids.to_set().contains(id@));
    let i = match crate::lookup::find_str(&lists[j].token_ids, id) {
        Some(i) => i,
        None => {
            proof {
                let a = choose|a: int| 0 <= a < ids.len() && ids[a] == id@;
                assert(lists@[j as int].token_ids@[a]@ == ids[a]);
            }
            return;
        },
    };
    proof {
        assert(ids[i as int] == id@);
        assert(ids.no_duplicates());
        lemma_id_pos(ids, id@);
        assert(id_pos(ids, id@) == i as int);
    }
    let ghost before = lists@[j as int].token_ids@;
    lists[j].token_ids.swap_remove(i);
    proof {
        assert(strs(lists@[j as int].token_ids@) =~= swap_removed(ids, i as int));
    }
    if lists[j].token_ids.len() == 0 {
        let ghost mid = lists@;
        lists.remove(j);
        assert(lists@.map_values(|o: OwnerTokens| o@) =~= l.remove(j as int)) by {
            assert forall|a: int| 0 <= a < lists@.len() implies lists@[a]@ == l.remove(j as int)[a] by {
                if a < j {
                    assert(lists@[a] == mid[a]);
                } else {
                    assert(lists@[a] == mid[a + 1]);
                }
            }
        }
    } else {
        assert(lists@.map_values(|o: OwnerTokens| o@) =~= l.update(j as int, (owner@, swap_removed(ids, i as int))));
    }
}

} // verus!
