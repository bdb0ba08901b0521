use vstd::prelude::*;

use crate::finger::{assignment_at_rank, lemma_rank_bijection, FingerAssignment};
use crate::keylog::{events_view, EventView, KeylogEntry};
use crate::keymap::{Key};
use crate::sfb::event_keys;
use crate::stats::{
    counts_sum, counts_view, event_label, events_in_bounds, finger_count, finger_table,
    finger_table_upto, is_label_table, key_total, keys_with_finger,
    label_count, labels_view, seq_sum, FingerCount, OutputCount,
};
use crate::text::str_eq;

verus! {

pub(crate) proof fn lemma_sum_update(s: Seq<u64>, r: int, v: u64)
    requires
        0 <= r < s.len(),
    ensures
        seq_sum(s.update(r, v)) + s[r] == seq_sum(s) + v,
    decreases s.len(),
{
    let t = s.update(r, v);
    if r < s.len() - 1 {
        assert(t.drop_last() == s.drop_last().update(r, v));
        lemma_sum_update(s.drop_last(), r, v);
    } else {
        assert(t.drop_last() == s.drop_last());
    }
}

/// The number of keys that an event presses.
pub(crate) fn event_key_count(e: &KeylogEntry<'_>) -> (n: usize)
    ensures
        n == event_keys(e@).len(),
{
    match e {
        KeylogEntry::Combo(c) => c.keys.len(),
        KeylogEntry::Single { .. } => 1,
    }
}

/// Key `j` of those that an event presses.
pub(crate) fn event_key<'b>(e: &'b KeylogEntry<'_>, j: usize) -> (k: &'b Key)
    requires
        j < event_keys(e@).len(),
    ensures
        k@ == event_keys(e@)[j as int],
{
    match e {
        KeylogEntry::Combo(c) => &c.keys[j],
        KeylogEntry::Single { key, .. } => key,
    }
}

/// Per-finger press counts by place in the reading order, with their total.
pub(crate) struct PressCounts {
    pub(crate) by_rank: Vec<u64>,
    pub(crate) total: u64,
}


pub(crate) fn count_presses(entries: &Vec<KeylogEntry<'_>>) -> (r: PressCounts)
    requires
        events_in_bounds(events_view(entries@)),
    ensures
        r.by_rank@.len() == 10,
        forall|k: int| 0 <= k < 10 ==> #[trigger] r.by_rank@[k] == finger_count(events_view(entries@), assignment_at_rank(k as nat)),
        r.total == key_total(events_view(entries@)),
        seq_sum(r.by_rank@) == r.total,
{
    let ghost evs = events_view(entries@);
    let mut by_rank: Vec<u64> = Vec::new();
    while by_rank.len() < 10
        invariant
            by_rank@.len() <= 10,
            forall|k: int| 0 <= k < by_rank@.len() ==> by_rank@[k] == 0,
            seq_sum(by_rank@) == 0,
        decreases 10 - by_rank@.len(),
    {
        let ghost before = by_rank@;
        by_rank.push(0);
        assert(by_rank@.drop_last() == before);
    }
    let mut total: u64 = 0;
    let mut i: usize = 0;
    while i < entries.len()
        invariant
            evs == events_view(entries@),
            events_in_bounds(evs),
            i <= evs.len(),
            by_rank@.len() == 10,
            forall|k: int| 0 <= k < 10 ==> #[trigger] by_rank@[k] == finger_count(evs.subrange(0, i as int), assignment_at_rank(k as nat)),
            total == key_total(evs.subrange(0, i as int)),
            seq_sum(by_rank@) == total,
            total <= i * 0xFFFF_FFFFu64,
            forall|k: int| 0 <= k < 10 ==> #[trigger] by_rank@[k] <= total,
        decreases evs.len() - i,
    {
        let e = &entries[i];
        let ghost pre = evs.subrange(0, i as int);
        let ghost ks = event_keys(evs[i as int]);
        assert(evs[i as int] == e@);
        let n = event_key_count(e);
        assert(n <= u32::MAX) by {
            assert(event_keys(evs[i as int]).len() <= u32::MAX);
        }
        let mut j: usize = 0;
        while j < n
            invariant
                evs == events_view(entries@),
                i < evs.len(),
                ks == event_keys(e@),
                n == ks.len(),
                n <= u32::MAX,
                j <= n,
                pre == evs.subrange(0, i as int),
                by_rank@.len() == 10,
                forall|k: int| 0 <= k < 10 ==> #[trigger] by_rank@[k] == finger_count(pre, assignment_at_rank(k as nat)) + keys_with_finger(ks.subrange(0, j as int), assignment_at_rank(k as nat)),
                total == key_total(pre) + j,
                seq_sum(by_rank@) == total,
                key_total(pre) <= i * 0xFFFF_FFFFu64,
                events_in_bounds(evs),
                forall|k: int| 0 <= k < 10 ==> #[trigger] by_rank@[k] <= total,
            decreases n - j,
        {
            let key = event_key(e, j);
            let f = key.physical_pos.finger;
            let rank = f.rank();
            proof {
                lemma_rank_bijection(f, 0);
                let t = ks.subrange(0, j + 1);
                assert(t.drop_last() == ks.subrange(0, j as int));
                assert(t.last() == key@);
                assert(total + 1 <= u64::MAX) by (nonlinear_arith)
                    requires
                        total == key_total(pre) + j,
                        key_total(pre) <= i * 0xFFFF_FFFFu64,
                        j < n,
                        n <= u32::MAX,
                        i < 0x1_0000_0000,
                ;
                lemma_sum_update(by_rank@, rank as int, (by_rank@[rank as int] + 1) as u64);
                assert forall|k: int| 0 <= k < 10 && k != rank implies #[trigger] assignment_at_rank(k as nat) != f by {
                    lemma_rank_bijection(f, k as nat);
                }
            }
            by_rank[rank] = by_rank[rank] + 1;
            total = total + 1;
            j = j + 1;
        }
        proof {
            let next = evs.subrange(0, i + 1);
            assert(next.drop_last() == pre);
            assert(next.last() == evs[i as int]);
            assert(ks.subrange(0, j as int) == ks);
            assert(total <= (i + 1) * 0xFFFF_FFFFu64) by (nonlinear_arith)
                requires
                    total == key_total(pre) + n,
                    key_total(pre) <= i * 0xFFFF_FFFFu64,
                    n <= u32::MAX,
            ;
        }
        i = i + 1;
    }
    assert(evs.subrange(0, i as int) == evs);
    PressCounts { by_rank, total }
}


pub(crate) fn finger_table_of(by_rank: &Vec<u64>, evs: Ghost<Seq<EventView>>) -> (t: Vec<FingerCount>)
    requires
        by_rank@.len() == 10,
        forall|k: int| 0 <= k < 10 ==> #[trigger] by_rank@[k] == finger_count(evs@, assignment_at_rank(k as nat)),
    ensures
        counts_view(t@) == finger_table(evs@),
        counts_sum(t@) == seq_sum(by_rank@),
{
    let mut t: Vec<FingerCount> = Vec::new();
    let mut r: usize = 0;
    while r < 10
        invariant
            r <= 10,
            by_rank@.len() == 10,
            forall|k: int| 0 <= k < 10 ==> #[trigger] by_rank@[k] == finger_count(evs@, assignment_at_rank(k as nat)),
            counts_view(t@) == finger_table_upto(evs@, r as int),
            counts_sum(t@) == seq_sum(by_rank@.subrange(0, r as int)),
        decreases 10 - r,
    {
        let c = by_rank[r];
        let ghost before = t@;
        proof {
            let s = by_rank@.subrange(0, r + 1);
            assert(s.drop_last() == by_rank@.subrange(0, r as int));
            assert(s.last() == c);
        }
        if c > 0 {
            t.push(FingerCount { finger: FingerAssignment::at_rank(r), count: c });
            assert(t@.drop_last() == before);
            assert(counts_view(t@) =~= counts_view(before).push(
                (assignment_at_rank(r as nat), c as nat),
            ));
        }
        r = r + 1;
    }
    assert(by_rank@.subrange(0, 10) == by_rank@);
    t
}

pub(crate) proof fn lemma_label_count_absent(evs: Seq<EventView>, l: Seq<char>)
    requires
        forall|j: int| 0 <= j < evs.len() ==> event_label(#[trigger] evs[j]) != l,
    ensures
        label_count(evs, l) == 0,
    decreases evs.len(),
{
    if evs.len() > 0 {
        let d = evs.drop_last();
        assert forall|j: int| 0 <= j < d.len() implies event_label(#[trigger] d[j]) != l by {
            assert(d[j] == evs[j]);
        }
        lemma_label_count_absent(d, l);
    }
}

pub(crate) proof fn lemma_label_count_le(evs: Seq<EventView>, l: Seq<char>)
    ensures
        label_count(evs, l) <= evs.len(),
    decreases evs.len(),
{
    if evs.len() > 0 {
        lemma_label_count_le(evs.drop_last(), l);
    }
}

/// The label under which an event is counted.
pub(crate) fn label_of(e: &KeylogEntry<'_>) -> (r: String)
    ensures
        r@ == event_label(e@),
{
    match e {
        KeylogEntry::Combo(c) => c.output.clone(),
        KeylogEntry::Single { key, .. } => key.id.0.clone(),
    }
}

/// The index of the entry of `t` with label `label`, or the length of `t` if there is none.
pub(crate) fn find_label(t: &Vec<OutputCount>, label: &str) -> (a: usize)
    ensures
        a <= t@.len(),
        a < t@.len() ==> t@[a as int].output@ == label@,
        forall|b: int| 0 <= b < a ==> (#[trigger] t@[b]).output@ != label@,
{
    let mut a: usize = 0;
    while a < t.len()
        invariant
            0 <= a <= t@.len(),
            forall|b: int| 0 <= b < a ==> (#[trigger] t@[b]).output@ != label@,
        decreases t@.len() - a,
    {
        if str_eq(t[a].output.as_str(), label) {
            return a;
        }
        a = a + 1;
    }
    a
}

pub(crate) fn output_table(entries: &Vec<KeylogEntry<'_>>) -> (t: Vec<OutputCount>)
    ensures
        is_label_table(t@, events_view(entries@)),
{
    reveal(is_label_table);
    let ghost evs = events_view(entries@);
    let mut t: Vec<OutputCount> = Vec::new();
    let mut i: usize = 0;
    while i < entries.len()
        invariant
            evs == events_view(entries@),
            i <= evs.len(),
            is_label_table(t@, evs.subrange(0, i as int)),
        decreases evs.len() - i,
    {
        let ghost pre = evs.subrange(0, i as int);
        let ghost next = evs.subrange(0, i + 1);
        let label = label_of(&entries[i]);
        proof {
            reveal(is_label_table);
            assert(next.drop_last() == pre);
            assert(next.last() == evs[i as int]);
            assert(evs[i as int] == entries@[i as int]@);
            lemma_label_count_le(pre, label@);
        }
        let a = find_label(&t, label.as_str());
        let ghost before = t@;
        if a < t.len() {
            assert(t@[a as int].count == label_count(pre, label@));
            assert(t@[a as int].count <= i);
            let c = t[a].count + 1;
            t[a].count = c;
            proof {
                assert forall|b: int| 0 <= b < t@.len() implies (#[trigger] t@[b]).count == label_count(
                    next,
                    t@[b].output@,
                ) by {
                    if b != a {
                        assert(t@[b] == before[b]);
                        if b < a {
                            assert(before[b].output@ != before[a as int].output@);
                        } else {
                            assert(before[a as int].output@ != before[b].output@);
                        }
                    }
                }
                assert forall|j: int| 0 <= j < next.len() implies labels_view(t@).contains(
                    event_label(#[trigger] next[j]),
                ) by {
                    if j < i {
                        assert(next[j] == pre[j]);
                        let x = choose|x: int| 0 <= x < before.len() && labels_view(before)[x] == event_label(pre[j]);
                        assert(labels_view(t@)[x] == labels_view(before)[x]);
                    } else {
                        assert(labels_view(t@)[a as int] == label@);
                    }
                }
                assert forall|x: int, y: int| 0 <= x < y < t@.len() implies (#[trigger] t@[x]).output@ != (#[trigger] t@[y]).output@ by {
                    assert(t@[x].output@ == before[x].output@);
                    assert(t@[y].output@ == before[y].output@);
                }
            }
        } else {
            proof {
                assert forall|j: int| 0 <= j < pre.len() implies event_label(#[trigger] pre[j]) != label@ by {
                    if event_label(pre[j]) == label@ {
                        assert(labels_view(before).contains(label@));
                        let x = choose|x: int| 0 <= x < before.len() && labels_view(before)[x] == label@;
                        assert(before[x].output@ == label@);
                    }
                }
                lemma_label_count_absent(pre, label@);
            }
            t.push(OutputCount { output: label, count: 1 });
            proof {
                assert forall|b: int| 0 <= b < t@.len() implies (#[trigger] t@[b]).count == label_count(
                    next,
                    t@[b].output@,
                ) by {
                    if b < before.len() {
                        assert(t@[b] == before[b]);
                        assert(before[b].output@ != event_label(evs[i as int]));
                    }
                }
                assert forall|j: int| 0 <= j < next.len() implies labels_view(t@).contains(
                    event_label(#[trigger] next[j]),
                ) by {
                    if j < i {
                        assert(next[j] == pre[j]);
                        let x = choose|x: int| 0 <= x < before.len() && labels_view(before)[x] == event_label(pre[j]);
                        assert(labels_view(t@)[x] == labels_view(before)[x]);
                    } else {
                        assert(labels_view(t@)[before.len() as int] == event_label(evs[i as int]));
                    }
                }
                assert forall|x: int, y: int| 0 <= x < y < t@.len() implies (#[trigger] t@[x]).output@ != (#[trigger] t@[y]).output@ by {
                    if y == before.len() {
                        assert(t@[x] == before[x]);
                    } else {
                        assert(t@[x] == before[x]);
                        assert(t@[y] == before[y]);
                    }
                }
            }
        }
        i = i + 1;
    }
    assert(evs.subrange(0, i as int) == evs);
    t
}



} // verus!
