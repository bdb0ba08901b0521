use vstd::prelude::*;

use crate::finger::FingerAssignment;
use crate::keylog::{events_view, KeylogEntry};
use crate::sfb::{sfb_id, sfb_series, Sfb, SfbView};
use crate::stats::{
    ascending, by_finger, by_finger_upto, finger_sfbs_view, id_count, insert_by_presses,
    is_sfb_aggregate, sfbs_view, sorted_by_presses, stats_view, touching, touching_upto,
    FingerSfbs, SfbStats, SfbStatsView,
};
use crate::text::str_eq;

verus! {


/// The bigrams of every two consecutive events, in order.
pub(crate) fn series_of(entries: &Vec<KeylogEntry<'_>>) -> (r: Vec<Sfb>)
    ensures
        sfbs_view(r@) == sfb_series(events_view(entries@)),
        r@.len() <= entries@.len(),
{
    let ghost evs = events_view(entries@);
    let mut r: Vec<Sfb> = Vec::new();
    if entries.len() < 2 {
        return r;
    }
    let mut i: usize = 1;
    assert(sfb_series(evs.subrange(0, 1)) == Seq::<SfbView>::empty());
    while i < entries.len()
        invariant
            evs == events_view(entries@),
            1 <= i <= evs.len(),
            sfbs_view(r@) == sfb_series(evs.subrange(0, i as int)),
            r@.len() <= i,
        decreases evs.len() - i,
    {
        let ghost before = r@;
        proof {
            let next = evs.subrange(0, i + 1);
            assert(next.drop_last() == evs.subrange(0, i as int));
            assert(next[next.len() - 2] == evs[i - 1]);
            assert(next.last() == evs[i as int]);
            assert(evs[i - 1] == entries@[i - 1]@);
            assert(evs[i as int] == entries@[i as int]@);
        }
        match Sfb::new_if_sfb(&entries[i - 1], &entries[i]) {
            Some(s) => {
                r.push(s);
                assert(sfbs_view(r@) =~= sfbs_view(before).push(r@.last()@));
            },
            None => {},
        }
        i = i + 1;
    }
    assert(evs.subrange(0, i as int) == evs);
    r
}

pub(crate) proof fn lemma_id_count_absent(series: Seq<SfbView>, id: Seq<char>)
    requires
        forall|j: int| 0 <= j < series.len() ==> sfb_id(#[trigger] series[j]) != id,
    ensures
        id_count(series, id) == 0,
    decreases series.len(),
{
    if series.len() > 0 {
        let d = series.drop_last();
        assert forall|j: int| 0 <= j < d.len() implies sfb_id(#[trigger] d[j]) != id by {
            assert(d[j] == series[j]);
        }
        lemma_id_count_absent(d, id);
    }
}

pub(crate) proof fn lemma_id_count_le(series: Seq<SfbView>, id: Seq<char>)
    ensures
        id_count(series, id) <= series.len(),
    decreases series.len(),
{
    if series.len() > 0 {
        lemma_id_count_le(series.drop_last(), id);
    }
}

/// The index of the entry of `ids` equal to `id`, or the length of `ids` if there is none.
pub(crate) fn find_id(ids: &Vec<String>, id: &str) -> (a: usize)
    ensures
        a <= ids@.len(),
        a < ids@.len() ==> ids@[a as int]@ == id@,
        forall|b: int| 0 <= b < a ==> (#[trigger] ids@[b])@ != id@,
{
    let mut a: usize = 0;
    while a < ids.len()
        invariant
            0 <= a <= ids@.len(),
            forall|b: int| 0 <= b < a ==> (#[trigger] ids@[b])@ != id@,
        decreases ids@.len() - a,
    {
        if str_eq(ids[a].as_str(), id) {
            return a;
        }
        a = a + 1;
    }
    a
}

#[verifier::rlimit(80)]
pub(crate) proof fn lemma_aggregate_bump(before: Seq<SfbStatsView>, pre: Seq<SfbView>, x: SfbView, a: int)
    requires
        is_sfb_aggregate(before, pre),
        0 <= a < before.len(),
        sfb_id(before[a].sfb) == sfb_id(x),
        before[a].presses < u64::MAX,
    ensures
        is_sfb_aggregate(
            before.update(a, SfbStatsView { presses: (before[a].presses + 1) as u64, sfb: before[a].sfb }),
            pre.push(x),
        ),
{
    reveal(is_sfb_aggregate);
    let now = before.update(a, SfbStatsView { presses: (before[a].presses + 1) as u64, sfb: before[a].sfb });
    let next = pre.push(x);
    assert(next.drop_last() == pre);
    assert forall|y: SfbView| pre.contains(y) implies next.contains(y) by {
        let j = choose|j: int| 0 <= j < pre.len() && pre[j] == y;
        assert(next[j] == y);
    }
    assert forall|b: int| 0 <= b < now.len() implies (#[trigger] now[b]).presses == id_count(
        next,
        sfb_id(now[b].sfb),
    ) && next.contains(now[b].sfb) by {
        assert(now[b].sfb == before[b].sfb);
        if b != a {
            if b < a {
                assert(sfb_id(before[b].sfb) != sfb_id(before[a].sfb));
            } else {
                assert(sfb_id(before[a].sfb) != sfb_id(before[b].sfb));
            }
        }
    }
    assert forall|i: int, j: int| 0 <= i < j < now.len() implies sfb_id((#[trigger] now[i]).sfb)
        != sfb_id((#[trigger] now[j]).sfb) by {
        assert(now[i].sfb == before[i].sfb);
        assert(now[j].sfb == before[j].sfb);
    }
    assert forall|j: int| 0 <= j < next.len() implies exists|b: int|
        0 <= b < now.len() && sfb_id((#[trigger] now[b]).sfb) == sfb_id(#[trigger] next[j]) by {
        if j < pre.len() {
            assert(next[j] == pre[j]);
            let b = choose|b: int|
                0 <= b < before.len() && sfb_id((#[trigger] before[b]).sfb) == sfb_id(pre[j]);
            assert(now[b].sfb == before[b].sfb);
        } else {
            assert(now[a].sfb == before[a].sfb);
        }
    }
}

#[verifier::rlimit(80)]
pub(crate) proof fn lemma_aggregate_new(before: Seq<SfbStatsView>, pre: Seq<SfbView>, x: SfbView)
    requires
        is_sfb_aggregate(before, pre),
        forall|b: int| 0 <= b < before.len() ==> sfb_id((#[trigger] before[b]).sfb) != sfb_id(x),
    ensures
        is_sfb_aggregate(before.push(SfbStatsView { presses: 1, sfb: x }), pre.push(x)),
{
    reveal(is_sfb_aggregate);
    let now = before.push(SfbStatsView { presses: 1, sfb: x });
    let next = pre.push(x);
    assert(next.drop_last() == pre);
    assert forall|j: int| 0 <= j < pre.len() implies sfb_id(#[trigger] pre[j]) != sfb_id(x) by {
        let b = choose|b: int|
            0 <= b < before.len() && sfb_id((#[trigger] before[b]).sfb) == sfb_id(pre[j]);
    }
    lemma_id_count_absent(pre, sfb_id(x));
    assert forall|y: SfbView| pre.contains(y) implies next.contains(y) by {
        let j = choose|j: int| 0 <= j < pre.len() && pre[j] == y;
        assert(next[j] == y);
    }
    assert(next[pre.len() as int] == x);
    assert forall|b: int| 0 <= b < now.len() implies (#[trigger] now[b]).presses == id_count(
        next,
        sfb_id(now[b].sfb),
    ) && next.contains(now[b].sfb) by {
        if b < before.len() {
            assert(now[b] == before[b]);
        }
    }
    assert forall|i: int, j: int| 0 <= i < j < now.len() implies sfb_id((#[trigger] now[i]).sfb)
        != sfb_id((#[trigger] now[j]).sfb) by {
        assert(now[i] == before[i]);
    }
    assert forall|j: int| 0 <= j < next.len() implies exists|b: int|
        0 <= b < now.len() && sfb_id((#[trigger] now[b]).sfb) == sfb_id(#[trigger] next[j]) by {
        if j < pre.len() {
            assert(next[j] == pre[j]);
            let b = choose|b: int|
                0 <= b < before.len() && sfb_id((#[trigger] before[b]).sfb) == sfb_id(pre[j]);
            assert(now[b] == before[b]);
        } else {
            assert(now[before.len() as int].sfb == x);
        }
    }
}

/// Counts the bigrams of `series` by identity.
pub(crate) fn aggregate(series: &Vec<Sfb>) -> (r: Vec<SfbStats>)
    requires
        series@.len() <= u32::MAX,
    ensures
        is_sfb_aggregate(stats_view(r@), sfbs_view(series@)),
        r@.len() <= series@.len(),
        forall|k: int| 0 <= k < r@.len() ==> #[trigger] r@[k].presses <= series@.len(),
{
    let ghost sv = sfbs_view(series@);
    proof {
        reveal(is_sfb_aggregate);
    }
    let mut agg: Vec<SfbStats> = Vec::new();
    let mut ids: Vec<String> = Vec::new();
    let mut i: usize = 0;
    while i < series.len()
        invariant
            sv == sfbs_view(series@),
            sv.len() <= u32::MAX,
            i <= sv.len(),
            ids@.len() == agg@.len(),
            agg@.len() <= i,
            forall|k: int| 0 <= k < ids@.len() ==> (#[trigger] ids@[k])@ == sfb_id(agg@[k]@.sfb),
            forall|k: int| 0 <= k < agg@.len() ==> #[trigger] agg@[k].presses <= i,
            is_sfb_aggregate(stats_view(agg@), sv.subrange(0, i as int)),
        decreases sv.len() - i,
    {
        let ghost pre = sv.subrange(0, i as int);
        let ghost before = stats_view(agg@);
        let ghost before_ids = ids@;
        let id = series[i].id();
        proof {
            assert(sv.subrange(0, i + 1) == pre.push(sv[i as int]));
            assert(sv[i as int] == series@[i as int]@);
        }
        let a = find_id(&ids, id.as_str());
        if a < ids.len() {
            let p = agg[a].presses + 1;
            agg[a].presses = p;
            proof {
                lemma_aggregate_bump(before, pre, sv[i as int], a as int);
                assert(stats_view(agg@) =~= before.update(
                    a as int,
                    SfbStatsView { presses: p, sfb: before[a as int].sfb },
                ));
            }
        } else {
            proof {
                assert forall|b: int| 0 <= b < before.len() implies sfb_id((#[trigger] before[b]).sfb)
                    != sfb_id(sv[i as int]) by {
                    assert(before_ids[b]@ == sfb_id(before[b].sfb));
                }
                lemma_aggregate_new(before, pre, sv[i as int]);
            }
            agg.push(SfbStats { presses: 1, sfb: series[i].duplicate() });
            ids.push(id);
            assert(stats_view(agg@) =~= before.push(SfbStatsView { presses: 1, sfb: sv[i as int] }));
        }
        i = i + 1;
    }
    assert(sv.subrange(0, i as int) == sv);
    agg
}


/// Places `x` into `v` after every entry with at most as many presses.
pub(crate) fn insert_by_presses_exec(v: &mut Vec<SfbStats>, x: SfbStats)
    ensures
        stats_view(final(v)@) == insert_by_presses(stats_view(old(v)@), x@),
{
    let ghost s = stats_view(v@);
    let mut p: usize = v.len();
    assert(s.subrange(0, p as int) == s);
    assert(s.subrange(p as int, s.len() as int) =~= Seq::<SfbStatsView>::empty());
    while p > 0 && x.presses < v[p - 1].presses
        invariant
            s == stats_view(v@),
            p <= v@.len(),
            insert_by_presses(s, x@) == insert_by_presses(s.subrange(0, p as int), x@) + s.subrange(
                p as int,
                s.len() as int,
            ),
        decreases p,
    {
        proof {
            let t = s.subrange(0, p as int);
            assert(t.drop_last() == s.subrange(0, p - 1));
            assert(t.last() == s[p - 1]);
            assert(s.subrange(p - 1, s.len() as int) == seq![s[p - 1]] + s.subrange(
                p as int,
                s.len() as int,
            ));
        }
        p = p - 1;
    }
    proof {
        let t = s.subrange(0, p as int);
        if p == 0 {
            assert(insert_by_presses(t, x@) == seq![x@]);
        } else {
            assert(insert_by_presses(t, x@) == t.push(x@));
        }
        assert(s.insert(p as int, x@) == insert_by_presses(t, x@) + s.subrange(p as int, s.len() as int));
    }
    v.insert(p, x);
    assert(stats_view(v@) == s.insert(p as int, x@));
}

/// Copies of `v`, sorted by presses, ascending.
pub(crate) fn sort_by_presses(v: &Vec<SfbStats>) -> (r: Vec<SfbStats>)
    ensures
        stats_view(r@) == sorted_by_presses(stats_view(v@)),
{
    let ghost sv = stats_view(v@);
    let mut sorted: Vec<SfbStats> = Vec::new();
    let mut n: usize = 0;
    while n < v.len()
        invariant
            sv == stats_view(v@),
            n <= sv.len(),
            stats_view(sorted@) == sorted_by_presses(sv.subrange(0, n as int)),
        decreases sv.len() - n,
    {
        proof {
            assert(sv.subrange(0, n + 1).drop_last() == sv.subrange(0, n as int));
        }
        insert_by_presses_exec(&mut sorted, v[n].duplicate());
        n = n + 1;
    }
    assert(sv.subrange(0, sv.len() as int) == sv);
    sorted
}

pub(crate) proof fn lemma_insert_keeps_ascending(s: Seq<SfbStatsView>, x: SfbStatsView)
    requires
        ascending(s),
    ensures
        ascending(insert_by_presses(s, x)),
        insert_by_presses(s, x).len() == s.len() + 1,
        forall|y: SfbStatsView| #[trigger] insert_by_presses(s, x).contains(y) ==> y == x || s.contains(y),
    decreases s.len(),
{
    reveal(ascending);
    if s.len() > 0 {
        let d = s.drop_last();
        if x.presses < s.last().presses {
            lemma_insert_keeps_ascending(d, x);
            let t = insert_by_presses(d, x);
            assert forall|y: SfbStatsView| t.contains(y) implies y.presses <= s.last().presses by {
                if y != x {
                    let j = choose|j: int| 0 <= j < d.len() && d[j] == y;
                    assert(s[j] == y);
                }
            }
            assert forall|a: int, b: int| 0 <= a < b < t.push(s.last()).len() implies (#[trigger] t.push(
                s.last(),
            )[a]).presses <= (#[trigger] t.push(s.last())[b]).presses by {
                if b == t.len() {
                    assert(t.contains(t[a]));
                }
            }
            assert forall|y: SfbStatsView| #[trigger] t.push(s.last()).contains(y) implies y == x
                || s.contains(y) by {
                if y != s.last() {
                    let j = choose|j: int| 0 <= j < t.push(s.last()).len() && t.push(s.last())[j] == y;
                    assert(t.contains(y));
                    if y != x {
                        let k = choose|k: int| 0 <= k < d.len() && d[k] == y;
                        assert(s[k] == y);
                    }
                } else {
                    assert(s[s.len() - 1] == y);
                }
            }
        } else {
            assert forall|y: SfbStatsView| #[trigger] s.push(x).contains(y) implies y == x || s.contains(y) by {
                if y != x {
                    let j = choose|j: int| 0 <= j < s.push(x).len() && s.push(x)[j] == y;
                    assert(s[j] == y);
                }
            }
        }
    } else {
        assert forall|y: SfbStatsView| #[trigger] seq![x].contains(y) implies y == x || s.contains(y) by {
            let j = choose|j: int| 0 <= j < 1 && seq![x][j] == y;
        }
    }
}

/// What `sorted_by_presses` returns is sorted by presses, ascending.
pub proof fn lemma_sorted_ascending(s: Seq<SfbStatsView>)
    ensures
        ascending(sorted_by_presses(s)),
        sorted_by_presses(s).len() == s.len(),
    decreases s.len(),
{
    reveal(ascending);
    if s.len() > 0 {
        lemma_sorted_ascending(s.drop_last());
        lemma_insert_keeps_ascending(sorted_by_presses(s.drop_last()), s.last());
    }
}


/// Copies of the entries of `agg` whose bigram moves `f`.
pub(crate) fn touching_exec(agg: &Vec<SfbStats>, f: &FingerAssignment) -> (r: Vec<SfbStats>)
    ensures
        stats_view(r@) == touching(stats_view(agg@), *f),
        r@.len() <= agg@.len(),
{
    let ghost sv = stats_view(agg@);
    let mut r: Vec<SfbStats> = Vec::new();
    let mut i: usize = 0;
    while i < agg.len()
        invariant
            sv == stats_view(agg@),
            i <= sv.len(),
            r@.len() <= i,
            stats_view(r@) == touching_upto(sv, *f, i as int),
        decreases sv.len() - i,
    {
        assert(sv[i as int] == agg@[i as int]@);
        if agg[i].sfb.touches(f) {
            let ghost before = r@;
            r.push(agg[i].duplicate());
            assert(stats_view(r@) =~= stats_view(before).push(sv[i as int]));
        }
        i = i + 1;
    }
    r
}

/// The entries of `agg` grouped by the fingers they move, in reading order.
pub(crate) fn group_by_finger(agg: &Vec<SfbStats>) -> (r: Vec<FingerSfbs>)
    ensures
        finger_sfbs_view(r@) == by_finger(stats_view(agg@)),
        forall|k: int| 0 <= k < r@.len() ==> (#[trigger] r@[k]).sfbs@.len() <= agg@.len(),
{
    let ghost sv = stats_view(agg@);
    let mut r: Vec<FingerSfbs> = Vec::new();
    let mut rank: usize = 0;
    while rank < 10
        invariant
            sv == stats_view(agg@),
            rank <= 10,
            finger_sfbs_view(r@) == by_finger_upto(sv, rank as int),
            forall|k: int| 0 <= k < r@.len() ==> (#[trigger] r@[k]).sfbs@.len() <= agg@.len(),
        decreases 10 - rank,
    {
        let f = FingerAssignment::at_rank(rank);
        let sfbs = touching_exec(agg, &f);
        if sfbs.len() > 0 {
            let ghost before = r@;
            r.push(FingerSfbs { finger: f, sfbs });
            assert(finger_sfbs_view(r@) =~= finger_sfbs_view(before).push(r@.last()@));
        }
        rank = rank + 1;
    }
    r
}


} // verus!
