//! Aggregation: grouping message entries by their location key and sorting
//! the groups in ascending lexicographic key order.

use vstd::prelude::*;
use crate::model::{entry_key, group_content, Entry, EntryV, Group, GroupV};
use crate::order::{
    lemma_str_lt_connected, lemma_str_lt_from_asymm, lemma_str_lt_trans, str_lt, str_lt_spec,
    str_eq,
};
use crate::seqs::{deep, lemma_deep_push, lemma_deep_remove, lemma_filter_take_step};

verus! {

/// No two strings of `ks` hold the same characters.
pub open spec fn distinct_seqs(ks: Seq<Seq<char>>) -> bool {
    forall|a: int, b: int| 0 <= a < b < ks.len() ==> ks[a] != ks[b]
}

/// `k` is one of the strings of `ks`.
pub open spec fn key_in(ks: Seq<Seq<char>>, k: Seq<char>) -> bool {
    exists|j: int| 0 <= j < ks.len() && ks[j] == k
}

/// Some entry of `es` is grouped under key `k`.
pub open spec fn key_present(es: Seq<EntryV>, k: Seq<char>) -> bool {
    exists|i: int| 0 <= i < es.len() && entry_key(#[trigger] es[i]) == Some(k)
}

/// The strings of `ks` are in strictly ascending lexicographic order.
pub open spec fn ascending(ks: Seq<Seq<char>>) -> bool {
    forall|a: int, b: int| 0 <= a < b < ks.len() ==> str_lt_spec(ks[a], ks[b])
}

/// The groups `gs` are a correct aggregation of the entries `es`:
/// their keys are strictly ascending (so no key repeats); each group holds
/// exactly the entries of `es` grouped under its key, in input order; each
/// group key is the key of some entry; and the key of every entry that has
/// one is the key of some group.
pub open spec fn groups_valid(es: Seq<EntryV>, gs: Seq<GroupV>) -> bool {
    &&& forall|a: int, b: int| 0 <= a < b < gs.len() ==> str_lt_spec(gs[a].key, gs[b].key)
    &&& forall|j: int| 0 <= j < gs.len() ==> (#[trigger] gs[j].entries) == group_content(
        es,
        gs[j].key,
    )
    &&& forall|j: int| 0 <= j < gs.len() ==> key_present(es, #[trigger] gs[j].key)
    &&& forall|i: int|
        0 <= i < es.len() ==> match entry_key(#[trigger] es[i]) {
            Some(k) => key_in_groups(gs, k),
            None => true,
        }
}

/// `k` is the key of one of the groups of `gs`.
pub open spec fn key_in_groups(gs: Seq<GroupV>, k: Seq<char>) -> bool {
    exists|j: int| 0 <= j < gs.len() && gs[j].key == k
}

/// The grouping key of one entry, when it has one: a present, non-empty
/// location.
fn entry_key_exec<'a>(e: &'a Entry) -> (r: Option<&'a String>)
    ensures
        match r {
            Some(s) => entry_key(e.deep_view()) == Some(s@),
            None => entry_key(e.deep_view()) is None,
        },
{
    match &e.location {
        Some(l) => {
            if l.as_str().unicode_len() > 0 {
                Some(l)
            } else {
                None
            }
        },
        None => None,
    }
}

/// Whether `k` occurs in the key list `keys`.
fn key_in_exec(keys: &Vec<String>, k: &str) -> (r: bool)
    ensures
        r == key_in(keys.deep_view(), k@),
{
    proof {
        assert(keys.deep_view() =~= deep(keys@));
    }
    let n = keys.len();
    let mut j: usize = 0;
    while j < n
        invariant
            j <= n,
            n == keys@.len(),
            forall|t: int| 0 <= t < j ==> keys.deep_view()[t] != k@,
        decreases n - j,
    {
        if str_eq(keys[j].as_str(), k) {
            assert(keys.deep_view()[j as int] == k@);
            return true;
        }
        j = j + 1;
    }
    false
}

/// Collects the distinct keys of the entries, in first-occurrence order.
fn collect_keys(entries: &Vec<Entry>) -> (keys: Vec<String>)
    ensures
        distinct_seqs(keys.deep_view()),
        forall|j: int|
            0 <= j < keys.deep_view().len() ==> key_present(
                entries.deep_view(),
                #[trigger] keys.deep_view()[j],
            ),
        forall|i: int|
            0 <= i < entries.deep_view().len() ==> match entry_key(
                #[trigger] entries.deep_view()[i],
            ) {
                Some(k) => key_in(keys.deep_view(), k),
                None => true,
            },
{
    let ghost es: Seq<EntryV> = entries.deep_view();
    let n = entries.len();
    let mut keys: Vec<String> = Vec::new();
    let mut i: usize = 0;
    while i < n
        invariant
            i <= n,
            n == entries@.len(),
            es == entries.deep_view(),
            distinct_seqs(keys.deep_view()),
            forall|j: int|
                0 <= j < keys.deep_view().len() ==> key_present(
                    es,
                    #[trigger] keys.deep_view()[j],
                ),
            forall|t: int|
                0 <= t < i ==> match entry_key(#[trigger] es[t]) {
                    Some(k) => key_in(keys.deep_view(), k),
                    None => true,
                },
        decreases n - i,
    {
        let ghost old_keys: Seq<Seq<char>> = keys.deep_view();
        let e = &entries[i];
        proof {
            assert(e.deep_view() == es[i as int]);
        }
        match entry_key_exec(e) {
            Some(k) => {
                if !key_in_exec(&keys, k.as_str()) {
                    let kc = k.clone();
                    keys.push(kc);
                    proof {
                        assert(keys.deep_view() =~= old_keys.push(k@));
                        assert(key_present(es, k@));
                        assert forall|a: int, b: int|
                            0 <= a < b < keys.deep_view().len() implies keys.deep_view()[a]
                            != keys.deep_view()[b] by {
                            if b < old_keys.len() {
                                assert(old_keys[a] != old_keys[b]);
                            } else {
                                assert(!key_in(old_keys, k@));
                                assert(keys.deep_view()[a] == old_keys[a]);
                            }
                        }
                        assert(keys.deep_view()[old_keys.len() as int] == k@);
                        assert(key_in(keys.deep_view(), k@));
                        assert forall|j: int| 0 <= j < old_keys.len() implies key_in(
                            keys.deep_view(),
                            old_keys[j],
                        ) by {
                            assert(keys.deep_view()[j] == old_keys[j]);
                        }
                    }
                } else {
                    proof {
                        assert(key_in(keys.deep_view(), k@));
                    }
                }
            },
            None => {},
        }
        i = i + 1;
    }
    keys
}

/// Sorts a list of pairwise distinct keys into strictly ascending order;
/// the result holds the same keys.
fn sort_keys(keys: Vec<String>) -> (r: Vec<String>)
    requires
        distinct_seqs(keys.deep_view()),
    ensures
        ascending(r.deep_view()),
        forall|j: int|
            0 <= j < r.deep_view().len() ==> key_in(keys.deep_view(), #[trigger] r.deep_view()[j]),
        forall|j: int|
            0 <= j < keys.deep_view().len() ==> key_in(
                r.deep_view(),
                #[trigger] keys.deep_view()[j],
            ),
{
    let ghost orig: Seq<Seq<char>> = keys.deep_view();
    proof {
        assert(orig =~= deep(keys@));
    }
    let mut rest = keys;
    let mut sorted: Vec<String> = Vec::new();
    while rest.len() > 0
        invariant
            sorted.deep_view() =~= deep(sorted@),
            rest.deep_view() =~= deep(rest@),
            ascending(sorted.deep_view()),
            distinct_seqs(rest.deep_view()),
            // everything already sorted is below everything still to sort
            forall|a: int, b: int|
                0 <= a < sorted.deep_view().len() && 0 <= b < rest.deep_view().len()
                    ==> str_lt_spec(
                    #[trigger] sorted.deep_view()[a],
                    #[trigger] rest.deep_view()[b],
                ),
            forall|j: int|
                0 <= j < sorted.deep_view().len() ==> key_in(
                    orig,
                    #[trigger] sorted.deep_view()[j],
                ),
            forall|j: int|
                0 <= j < rest.deep_view().len() ==> key_in(orig, #[trigger] rest.deep_view()[j]),
            forall|j: int|
                0 <= j < orig.len() ==> key_in(sorted.deep_view(), #[trigger] orig[j]) || key_in(
                    rest.deep_view(),
                    #[trigger] orig[j],
                ),
        decreases rest@.len(),
    {
        let ghost old_rest: Seq<Seq<char>> = rest.deep_view();
        let ghost old_rest_s: Seq<String> = rest@;
        let ghost old_sorted: Seq<Seq<char>> = sorted.deep_view();
        let ghost old_sorted_s: Seq<String> = sorted@;
        // find the least remaining key
        let mut m: usize = 0;
        let mut j: usize = 1;
        while j < rest.len()
            invariant
                rest.deep_view() =~= deep(rest@),
                0 < rest@.len(),
                m < j,
                j <= rest@.len(),
                forall|t: int|
                    0 <= t < j && t != m ==> !str_lt_spec(
                        #[trigger] rest.deep_view()[t],
                        rest.deep_view()[m as int],
                    ),
            decreases rest@.len() - j,
        {
            if str_lt(rest[j].as_str(), rest[m].as_str()) {
                proof {
                    assert forall|t: int|
                        0 <= t < j + 1 && t != j implies !str_lt_spec(
                        #[trigger] rest.deep_view()[t],
                        rest.deep_view()[j as int],
                    ) by {
                        if str_lt_spec(rest.deep_view()[t], rest.deep_view()[j as int]) {
                            if t == m {
                                lemma_str_lt_from_asymm(
                                    rest.deep_view()[j as int],
                                    rest.deep_view()[m as int],
                                    0,
                                );
                            } else {
                                lemma_str_lt_trans(
                                    rest.deep_view()[t],
                                    rest.deep_view()[j as int],
                                    rest.deep_view()[m as int],
                                );
                            }
                        }
                    }
                }
                m = j;
            }
            j = j + 1;
        }
        proof {
            assert forall|t: int| 0 <= t < old_rest.len() && t != m implies str_lt_spec(
                old_rest[m as int],
                #[trigger] old_rest[t],
            ) by {
                lemma_str_lt_connected(old_rest[m as int], old_rest[t]);
                if t < m {
                    assert(old_rest[t] != old_rest[m as int]);
                } else {
                    assert(old_rest[m as int] != old_rest[t]);
                }
            }
        }
        let k = rest.remove(m);
        sorted.push(k);
        proof {
            lemma_deep_remove(old_rest_s, m as int);
            assert(deep(old_rest_s) =~= old_rest);
            assert(rest.deep_view() =~= old_rest.remove(m as int));
            lemma_deep_push(old_sorted_s, k);
            assert(sorted.deep_view() =~= old_sorted.push(old_rest[m as int]));
            let new_sorted = sorted.deep_view();
            let new_rest = rest.deep_view();
            // the new last element is above all earlier sorted keys and
            // below all remaining keys
            assert forall|a: int, b: int|
                0 <= a < new_sorted.len() && 0 <= b < new_rest.len() implies str_lt_spec(
                #[trigger] new_sorted[a],
                #[trigger] new_rest[b],
            ) by {
                let src: int = if b < m { b } else { b + 1 };
                assert(new_rest[b] == old_rest[src]);
                if a < old_sorted.len() {
                    assert(str_lt_spec(new_sorted[a], old_rest[src]));
                } else {
                    assert(new_sorted[a] == old_rest[m as int]);
                    assert(src != m);
                    assert(str_lt_spec(old_rest[m as int], old_rest[src]));
                }
            }
            assert forall|a: int, b: int| 0 <= a < b < new_sorted.len() implies str_lt_spec(
                new_sorted[a],
                new_sorted[b],
            ) by {
                if b < old_sorted.len() {
                    assert(str_lt_spec(old_sorted[a], old_sorted[b]));
                } else {
                    assert(new_sorted[b] == old_rest[m as int]);
                    assert(str_lt_spec(old_sorted[a], old_rest[m as int]));
                }
            }
            assert forall|a: int, b: int| 0 <= a < b < new_rest.len() implies new_rest[a]
                != new_rest[b] by {
                let sa: int = if a < m { a } else { a + 1 };
                let sb: int = if b < m { b } else { b + 1 };
                assert(new_rest[a] == old_rest[sa]);
                assert(new_rest[b] == old_rest[sb]);
            }
            assert forall|j2: int| 0 <= j2 < new_sorted.len() implies key_in(
                orig,
                #[trigger] new_sorted[j2],
            ) by {
                if j2 < old_sorted.len() {
                    assert(new_sorted[j2] == old_sorted[j2]);
                } else {
                    assert(new_sorted[j2] == old_rest[m as int]);
                }
            }
            assert forall|j2: int| 0 <= j2 < new_rest.len() implies key_in(
                orig,
                #[trigger] new_rest[j2],
            ) by {
                let src: int = if j2 < m { j2 } else { j2 + 1 };
                assert(new_rest[j2] == old_rest[src]);
            }
            assert forall|j2: int| 0 <= j2 < orig.len() implies key_in(
                new_sorted,
                #[trigger] orig[j2],
            ) || key_in(new_rest, orig[j2]) by {
                if key_in(old_sorted, orig[j2]) {
                    let w = choose|w: int| 0 <= w < old_sorted.len() && old_sorted[w] == orig[j2];
                    assert(new_sorted[w] == orig[j2]);
                } else {
                    let w = choose|w: int| 0 <= w < old_rest.len() && old_rest[w] == orig[j2];
                    if w == m {
                        assert(new_sorted[old_sorted.len() as int] == orig[j2]);
                    } else {
                        let dst: int = if w < m {
                            w
                        } else {
                            w - 1
                        };
                        assert(new_rest[dst] == old_rest[w]);
                    }
                }
            }
        }
    }
    proof {
        assert(rest.deep_view().len() == 0);
    }
    sorted
}

/// One loop step of gathering a group: extending the prefix by one entry
/// appends it exactly when it is grouped under `k`.
proof fn lemma_group_content_take_step(es: Seq<EntryV>, k: Seq<char>, i: int)
    requires
        0 <= i < es.len(),
    ensures
        group_content(es.take(i + 1), k) == group_content(es.take(i), k) + (if entry_key(es[i])
            == Some(k) {
            seq![es[i]]
        } else {
            Seq::<EntryV>::empty()
        }),
{
    lemma_filter_take_step(es, |e: EntryV| entry_key(e) == Some(k), i);
}

/// Gathering a group from no entries gathers nothing.
proof fn lemma_group_content_empty(k: Seq<char>)
    ensures
        group_content(Seq::<EntryV>::empty(), k) == Seq::<EntryV>::empty(),
{
    reveal_with_fuel(Seq::filter, 1);
}

/// Copies, in input order, the entries grouped under `key`.
fn collect_group(entries: &Vec<Entry>, key: &String) -> (r: Vec<Entry>)
    ensures
        r.deep_view() == group_content(entries.deep_view(), key@),
{
    let ghost es: Seq<EntryV> = entries.deep_view();
    let n = entries.len();
    let mut r: Vec<Entry> = Vec::new();
    proof {
        lemma_group_content_empty(key@);
        assert(es.take(0) =~= Seq::<EntryV>::empty());
        assert(r.deep_view() =~= Seq::<EntryV>::empty());
    }
    let mut i: usize = 0;
    while i < n
        invariant
            i <= n,
            n == entries@.len(),
            es == entries.deep_view(),
            r.deep_view() =~= group_content(es.take(i as int), key@),
        decreases n - i,
    {
        let ghost old_r: Seq<EntryV> = r.deep_view();
        let ghost old_r_s: Seq<Entry> = r@;
        let e = &entries[i];
        proof {
            assert(e.deep_view() == es[i as int]);
            lemma_group_content_take_step(es, key@, i as int);
        }
        let mut matched = false;
        match entry_key_exec(e) {
            Some(s) => {
                if str_eq(s.as_str(), key.as_str()) {
                    matched = true;
                }
            },
            None => {},
        }
        if matched {
            let copy = e.clone();
            r.push(copy);
            proof {
                assert(deep(r@) =~= deep(old_r_s).push(copy.deep_view()));
                assert(r.deep_view() =~= deep(r@));
                assert(deep(old_r_s) =~= old_r);
                assert(r.deep_view() =~= old_r.push(es[i as int]));
                assert(r.deep_view() =~= group_content(es.take(i as int + 1), key@));
            }
        } else {
            proof {
                assert(entry_key(es[i as int]) != Some(key@));
                assert(r.deep_view() =~= group_content(es.take(i as int + 1), key@));
            }
        }
        i = i + 1;
    }
    proof {
        assert(es.take(n as int) =~= es);
    }
    r
}

/// Groups the entries by location key: one group per distinct key of the
/// input, keys strictly ascending, each group holding its entries in input
/// order.  Entries with an absent or empty location fall into no group.
pub fn group_entries(entries: &Vec<Entry>) -> (gs: Vec<Group>)
    ensures
        groups_valid(entries.deep_view(), gs.deep_view()),
{
    let ghost es: Seq<EntryV> = entries.deep_view();
    let keys = collect_keys(entries);
    let sorted = sort_keys(keys);
    let ghost ks: Seq<Seq<char>> = sorted.deep_view();
    let n = sorted.len();
    let mut gs: Vec<Group> = Vec::new();
    let mut i: usize = 0;
    while i < n
        invariant
            i <= n,
            n == sorted@.len(),
            es == entries.deep_view(),
            ks == sorted.deep_view(),
            gs.deep_view().len() == i,
            forall|j: int| 0 <= j < i ==> (#[trigger] gs.deep_view()[j].key) == ks[j],
            forall|j: int|
                0 <= j < i ==> (#[trigger] gs.deep_view()[j].entries) == group_content(es, ks[j]),
        decreases n - i,
    {
        let ghost old_gs_s: Seq<Group> = gs@;
        let key = &sorted[i];
        proof {
            assert(key@ == ks[i as int]);
        }
        let content = collect_group(entries, key);
        let g = Group { key: key.clone(), entries: content };
        gs.push(g);
        proof {
            lemma_deep_push(old_gs_s, g);
            assert(gs.deep_view() =~= deep(gs@));
            assert(deep(old_gs_s) =~= gs.deep_view().take(i as int));
            assert forall|j: int| 0 <= j < i + 1 implies (#[trigger] gs.deep_view()[j].key)
                == ks[j] by {
                if j < i {
                    assert(gs.deep_view()[j] == deep(old_gs_s)[j]);
                }
            }
            assert forall|j: int| 0 <= j < i + 1 implies (#[trigger] gs.deep_view()[j].entries)
                == group_content(es, ks[j]) by {
                if j < i {
                    assert(gs.deep_view()[j] == deep(old_gs_s)[j]);
                }
            }
        }
        i = i + 1;
    }
    proof {
        let gv = gs.deep_view();
        assert forall|a: int, b: int| 0 <= a < b < gv.len() implies str_lt_spec(
            gv[a].key,
            gv[b].key,
        ) by {
            assert(gv[a].key == ks[a]);
            assert(gv[b].key == ks[b]);
        }
        assert forall|j: int| 0 <= j < gv.len() implies key_present(es, #[trigger] gv[j].key) by {
            assert(gv[j].key == ks[j]);
            assert(key_in(keys.deep_view(), ks[j]));
            let w = choose|w: int|
                0 <= w < keys.deep_view().len() && keys.deep_view()[w] == ks[j];
            assert(key_present(es, keys.deep_view()[w]));
        }
        assert forall|i2: int| 0 <= i2 < es.len() implies match entry_key(#[trigger] es[i2]) {
            Some(k) => key_in_groups(gv, k),
            None => true,
        } by {
            match entry_key(es[i2]) {
                Some(k) => {
                    assert(key_in(keys.deep_view(), k));
                    let w = choose|w: int|
                        0 <= w < keys.deep_view().len() && keys.deep_view()[w] == k;
                    assert(key_in(ks, keys.deep_view()[w]));
                    let w2 = choose|w2: int| 0 <= w2 < ks.len() && ks[w2] == k;
                    assert(gv[w2].key == k);
                },
                None => {},
            }
        }
    }
    gs
}

} // verus!
