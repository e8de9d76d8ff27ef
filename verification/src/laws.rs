//! Properties of the aggregation, proved from the contracts alone: the
//! grouping partitions the keyed entries, excludes the unkeyed ones, and
//! has exactly one correct result.

use vstd::prelude::*;
use crate::group::{ascending, groups_valid, key_in, key_in_groups, key_present};
use crate::message::blocks_of_groups;
use crate::model::{entry_key, group_content, EntryV, GroupV, HolidayV};
use crate::notify::payload_for;
use crate::order::{lemma_str_lt_from_asymm, str_lt_spec};
use crate::pipeline::entries_view;
use crate::render::json_of_blocks;
use crate::seqs::lemma_filter_membership;

verus! {

/// Every element of a filtered sequence is an element of the original one.
proof fn lemma_filter_subset<A>(s: Seq<A>, p: spec_fn(A) -> bool)
    ensures
        forall|t: int| 0 <= t < s.filter(p).len() ==> s.contains(#[trigger] s.filter(p)[t]),
    decreases s.len(),
{
    reveal(Seq::filter);
    if s.len() > 0 {
        let rest = s.drop_last();
        lemma_filter_subset(rest, p);
        assert forall|t: int| 0 <= t < s.filter(p).len() implies s.contains(
            #[trigger] s.filter(p)[t],
        ) by {
            if t < rest.filter(p).len() {
                assert(rest.contains(rest.filter(p)[t]));
                let w = choose|w: int| 0 <= w < rest.len() && rest[w] == rest.filter(p)[t];
                assert(s[w] == s.filter(p)[t]);
            } else {
                assert(s.filter(p)[t] == s.last());
                assert(s[s.len() - 1] == s.last());
            }
        }
    }
}

/// An entry without a location key is in no group of a correct
/// aggregation: the message carries no section for it.
pub proof fn lemma_absent_location_excluded(
    es: Seq<EntryV>,
    gs: Seq<GroupV>,
    i: int,
    j: int,
)
    requires
        groups_valid(es, gs),
        0 <= i < es.len(),
        entry_key(es[i]) is None,
        0 <= j < gs.len(),
    ensures
        !gs[j].entries.contains(es[i]),
{
    let k = gs[j].key;
    let p = |e: EntryV| entry_key(e) == Some(k);
    assert(gs[j].entries == group_content(es, k));
    lemma_filter_membership(es, p);
    if gs[j].entries.contains(es[i]) {
        let t = choose|t: int| 0 <= t < gs[j].entries.len() && gs[j].entries[t] == es[i];
        assert(p(es.filter(p)[t]));
    }
}

/// An entry with a location key appears in exactly one group of a correct
/// aggregation: some group contains it, every group containing it is keyed
/// by the entry's key, and no two distinct groups contain it.
pub proof fn lemma_grouping_partitions(es: Seq<EntryV>, gs: Seq<GroupV>, i: int)
    requires
        groups_valid(es, gs),
        0 <= i < es.len(),
        entry_key(es[i]) is Some,
    ensures
        exists|j: int| 0 <= j < gs.len() && (#[trigger] gs[j].entries).contains(es[i]),
        forall|j: int|
            0 <= j < gs.len() && (#[trigger] gs[j].entries).contains(es[i]) ==> gs[j].key
                == entry_key(es[i])->0,
        forall|j1: int, j2: int|
            0 <= j1 < gs.len() && 0 <= j2 < gs.len() && (#[trigger] gs[j1].entries).contains(
                es[i],
            ) && (#[trigger] gs[j2].entries).contains(es[i]) ==> j1 == j2,
{
    let k = entry_key(es[i])->0;
    assert(key_in_groups(gs, k));
    let j = choose|j: int| 0 <= j < gs.len() && gs[j].key == k;
    let p = |e: EntryV| entry_key(e) == Some(k);
    assert(gs[j].entries == group_content(es, k));
    lemma_filter_membership(es, p);
    assert(p(es[i]));
    assert(es.filter(p).contains(es[i]));
    assert(gs[j].entries.contains(es[i]));
    assert forall|j2: int|
        0 <= j2 < gs.len() && (#[trigger] gs[j2].entries).contains(es[i]) implies gs[j2].key
        == k by {
        let k2 = gs[j2].key;
        let p2 = |e: EntryV| entry_key(e) == Some(k2);
        assert(gs[j2].entries == group_content(es, k2));
        lemma_filter_membership(es, p2);
        let t = choose|t: int| 0 <= t < gs[j2].entries.len() && gs[j2].entries[t] == es[i];
        assert(p2(es.filter(p2)[t]));
    }
    assert forall|j1: int, j2: int|
        0 <= j1 < gs.len() && 0 <= j2 < gs.len() && (#[trigger] gs[j1].entries).contains(es[i])
            && (#[trigger] gs[j2].entries).contains(es[i]) implies j1 == j2 by {
        if j1 != j2 {
            if j1 < j2 {
                assert(str_lt_spec(gs[j1].key, gs[j2].key));
            } else {
                assert(str_lt_spec(gs[j2].key, gs[j1].key));
            }
            lemma_str_lt_from_asymm(gs[j1].key, gs[j2].key, 0);
            assert(false);
        }
    }
}

/// Every member of a group of a correct aggregation is an input entry
/// grouped under that group's key.
pub proof fn lemma_groups_sound(es: Seq<EntryV>, gs: Seq<GroupV>, j: int, t: int)
    requires
        groups_valid(es, gs),
        0 <= j < gs.len(),
        0 <= t < gs[j].entries.len(),
    ensures
        es.contains(gs[j].entries[t]),
        entry_key(gs[j].entries[t]) == Some(gs[j].key),
{
    let k = gs[j].key;
    let p = |e: EntryV| entry_key(e) == Some(k);
    assert(gs[j].entries == group_content(es, k));
    lemma_filter_membership(es, p);
    lemma_filter_subset(es, p);
    assert(p(es.filter(p)[t]));
    assert(es.contains(es.filter(p)[t]));
}

/// Two strictly ascending key sequences that hold the same keys are equal.
proof fn lemma_sorted_same_set_equal(a: Seq<Seq<char>>, b: Seq<Seq<char>>)
    requires
        ascending(a),
        ascending(b),
        forall|j: int| 0 <= j < a.len() ==> key_in(b, #[trigger] a[j]),
        forall|j: int| 0 <= j < b.len() ==> key_in(a, #[trigger] b[j]),
    ensures
        a == b,
    decreases a.len(),
{
    if a.len() == 0 {
        if b.len() > 0 {
            assert(key_in(a, b[0]));
            assert(false);
        }
        assert(a =~= b);
    } else {
        if b.len() == 0 {
            assert(key_in(b, a[0]));
            assert(false);
        }
        assert(key_in(b, a[0]));
        let w = choose|w: int| 0 <= w < b.len() && b[w] == a[0];
        assert(key_in(a, b[0]));
        let w2 = choose|w2: int| 0 <= w2 < a.len() && a[w2] == b[0];
        if a[0] != b[0] {
            assert(w != 0);
            assert(w2 != 0);
            assert(str_lt_spec(b[0], b[w]));
            assert(str_lt_spec(a[0], a[w2]));
            lemma_str_lt_from_asymm(a[0], b[0], 0);
            assert(false);
        }
        let a1 = a.skip(1);
        let b1 = b.skip(1);
        assert forall|p: int, q: int| 0 <= p < q < a1.len() implies str_lt_spec(
            a1[p],
            a1[q],
        ) by {
            assert(str_lt_spec(a[p + 1], a[q + 1]));
        }
        assert forall|p: int, q: int| 0 <= p < q < b1.len() implies str_lt_spec(
            b1[p],
            b1[q],
        ) by {
            assert(str_lt_spec(b[p + 1], b[q + 1]));
        }
        assert forall|j: int| 0 <= j < a1.len() implies key_in(b1, #[trigger] a1[j]) by {
            assert(key_in(b, a[j + 1]));
            let t = choose|t: int| 0 <= t < b.len() && b[t] == a[j + 1];
            if t == 0 {
                assert(str_lt_spec(a[0], a[j + 1]));
                lemma_str_lt_from_asymm(a[0], a[j + 1], 0);
                assert(false);
            }
            assert(b1[t - 1] == a1[j]);
        }
        assert forall|j: int| 0 <= j < b1.len() implies key_in(a1, #[trigger] b1[j]) by {
            assert(key_in(a, b[j + 1]));
            let t = choose|t: int| 0 <= t < a.len() && a[t] == b[j + 1];
            if t == 0 {
                assert(str_lt_spec(b[0], b[j + 1]));
                lemma_str_lt_from_asymm(b[0], b[j + 1], 0);
                assert(false);
            }
            assert(a1[t - 1] == b1[j]);
        }
        lemma_sorted_same_set_equal(a1, b1);
        assert(a.len() == b.len());
        assert forall|j: int| 0 <= j < a.len() implies a[j] == b[j] by {
            if j > 0 {
                assert(a1[j - 1] == b1[j - 1]);
            }
        }
        assert(a =~= b);
    }
}

/// A correct aggregation is unique: two correct groupings of the same
/// entries are the same sequence of groups.
pub proof fn lemma_groups_valid_unique(es: Seq<EntryV>, g1: Seq<GroupV>, g2: Seq<GroupV>)
    requires
        groups_valid(es, g1),
        groups_valid(es, g2),
    ensures
        g1 == g2,
{
    let ks1 = Seq::new(g1.len(), |j: int| g1[j].key);
    let ks2 = Seq::new(g2.len(), |j: int| g2[j].key);
    assert forall|p: int, q: int| 0 <= p < q < ks1.len() implies str_lt_spec(
        ks1[p],
        ks1[q],
    ) by {
        assert(str_lt_spec(g1[p].key, g1[q].key));
    }
    assert forall|p: int, q: int| 0 <= p < q < ks2.len() implies str_lt_spec(
        ks2[p],
        ks2[q],
    ) by {
        assert(str_lt_spec(g2[p].key, g2[q].key));
    }
    assert forall|j: int| 0 <= j < ks1.len() implies key_in(ks2, #[trigger] ks1[j]) by {
        assert(key_present(es, g1[j].key));
        let i = choose|i: int| 0 <= i < es.len() && entry_key(#[trigger] es[i]) == Some(g1[j].key);
        assert(key_in_groups(g2, g1[j].key));
        let t = choose|t: int| 0 <= t < g2.len() && g2[t].key == g1[j].key;
        assert(ks2[t] == ks1[j]);
    }
    assert forall|j: int| 0 <= j < ks2.len() implies key_in(ks1, #[trigger] ks2[j]) by {
        assert(key_present(es, g2[j].key));
        let i = choose|i: int| 0 <= i < es.len() && entry_key(#[trigger] es[i]) == Some(g2[j].key);
        assert(key_in_groups(g1, g2[j].key));
        let t = choose|t: int| 0 <= t < g1.len() && g1[t].key == g2[j].key;
        assert(ks1[t] == ks2[j]);
    }
    lemma_sorted_same_set_equal(ks1, ks2);
    assert forall|j: int| 0 <= j < g1.len() implies g1[j] == g2[j] by {
        assert(ks1[j] == ks2[j]);
        assert(g1[j].key == g2[j].key);
        assert(g1[j].entries == group_content(es, g1[j].key));
        assert(g2[j].entries == group_content(es, g2[j].key));
        assert(g1[j] =~= g2[j]);
    }
    assert(g1 =~= g2);
}

/// Within a group of a correct aggregation, lines keep the order the
/// records were received in: two group members at increasing positions
/// come from two input positions in the same order.
pub proof fn lemma_group_order_preserved(
    es: Seq<EntryV>,
    gs: Seq<GroupV>,
    j: int,
    t1: int,
    t2: int,
)
    requires
        groups_valid(es, gs),
        0 <= j < gs.len(),
        0 <= t1 < t2 < gs[j].entries.len(),
    ensures
        exists|i1: int, i2: int|
            0 <= i1 < i2 < es.len() && es[i1] == gs[j].entries[t1] && es[i2] == gs[j].entries[t2],
{
    let k = gs[j].key;
    let p = |e: EntryV| entry_key(e) == Some(k);
    assert(gs[j].entries == group_content(es, k));
    crate::seqs::lemma_filter_ordered(es, p, t1, t2);
}

/// The records determine the message: any two payloads for the same
/// records are the same text.
pub proof fn lemma_payload_unique(hs: Seq<HolidayV>, s1: Seq<char>, s2: Seq<char>)
    requires
        payload_for(hs, s1),
        payload_for(hs, s2),
    ensures
        s1 == s2,
{
    let es = entries_view(hs);
    let g1 = choose|gs: Seq<GroupV>|
        groups_valid(es, gs) && s1 == json_of_blocks(blocks_of_groups(gs));
    let g2 = choose|gs: Seq<GroupV>|
        groups_valid(es, gs) && s2 == json_of_blocks(blocks_of_groups(gs));
    lemma_groups_valid_unique(es, g1, g2);
}

} // verus!
