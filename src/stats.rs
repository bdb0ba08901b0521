use vstd::prelude::*;

use crate::finger::{assignment_at_rank, FingerAssignment, MatrixHalf};
use crate::input::InputInfo;
use crate::keylog::{events_view, resolve_entries, resolve_log, resolve_upto, EventView, KeylogError, MismatchPolicy, RawKeylogEntry};
use crate::keymap::{key_finger, Key, KeyView, Keymap, KeymapView};
use crate::sfb::{event_keys, sfb_fingers, sfb_id, sfb_series, Sfb, SfbView};
use crate::aggregate::{aggregate, group_by_finger, lemma_sorted_ascending, series_of, sort_by_presses};
use crate::tally::{count_presses, finger_table_of, output_table};

verus! {

/// The label under which an event is counted: a combo's output, or a single key's symbol.
pub open spec fn event_label(e: EventView) -> Seq<char> {
    match e {
        EventView::Combo(c) => c.output,
        EventView::Single { key, .. } => key.id,
    }
}

/// How many of `evs` carry label `l`.
pub open spec fn label_count(evs: Seq<EventView>, l: Seq<char>) -> nat
    decreases evs.len(),
{
    if evs.len() == 0 {
        0
    } else {
        label_count(evs.drop_last(), l) + if event_label(evs.last()) == l {
            1nat
        } else {
            0nat
        }
    }
}

/// How many of `keys` are operated by `f`.
pub open spec fn keys_with_finger(keys: Seq<KeyView>, f: FingerAssignment) -> nat
    decreases keys.len(),
{
    if keys.len() == 0 {
        0
    } else {
        keys_with_finger(keys.drop_last(), f) + if key_finger(keys.last()) == f {
            1nat
        } else {
            0nat
        }
    }
}


/// How many key presses of `evs` fall to finger `f`; a combo presses each of its keys.
pub open spec fn finger_count(evs: Seq<EventView>, f: FingerAssignment) -> nat
    decreases evs.len(),
{
    if evs.len() == 0 {
        0
    } else {
        finger_count(evs.drop_last(), f) + keys_with_finger(event_keys(evs.last()), f)
    }
}


/// How many key presses `evs` make in all.
pub open spec fn key_total(evs: Seq<EventView>) -> nat
    decreases evs.len(),
{
    if evs.len() == 0 {
        0
    } else {
        key_total(evs.drop_last()) + event_keys(evs.last()).len()
    }
}

/// A count of events under one label.
#[derive(Clone, Debug)]
pub struct OutputCount {
    pub output: String,
    pub count: u64,
}

/// A count of key presses, or of bigrams, for one finger.
#[derive(Clone, Copy, PartialEq, Eq, Structural, Debug)]
pub struct FingerCount {
    pub finger: FingerAssignment,
    pub count: u64,
}

/// The fingers with at least one press among the first `r` places of the reading order, each
/// with its count, in reading order.
pub open spec fn finger_table_upto(evs: Seq<EventView>, r: int) -> Seq<(FingerAssignment, nat)>
    decreases r,
{
    if r <= 0 {
        seq![]
    } else {
        let prev = finger_table_upto(evs, r - 1);
        let f = assignment_at_rank((r - 1) as nat);
        if finger_count(evs, f) > 0 {
            prev.push((f, finger_count(evs, f)))
        } else {
            prev
        }
    }
}

/// Every finger that `evs` press, with its count, in reading order.
pub open spec fn finger_table(evs: Seq<EventView>) -> Seq<(FingerAssignment, nat)> {
    finger_table_upto(evs, 10)
}

pub open spec fn counts_view(t: Seq<FingerCount>) -> Seq<(FingerAssignment, nat)> {
    t.map_values(|c: FingerCount| (c.finger, c.count as nat))
}

/// The sum of the counts in `t`.
pub open spec fn counts_sum(t: Seq<FingerCount>) -> nat
    decreases t.len(),
{
    if t.len() == 0 {
        0
    } else {
        counts_sum(t.drop_last()) + t.last().count as nat
    }
}

/// The sum of the counts in `t` that belong to hand `h`.
pub open spec fn half_sum(t: Seq<FingerCount>, h: MatrixHalf) -> nat
    decreases t.len(),
{
    if t.len() == 0 {
        0
    } else {
        half_sum(t.drop_last(), h) + if t.last().finger.half == h {
            t.last().count as nat
        } else {
            0nat
        }
    }
}

pub open spec fn labels_view(t: Seq<OutputCount>) -> Seq<Seq<char>> {
    t.map_values(|o: OutputCount| o.output@)
}

/// `t` counts the labels of `evs`: each label once, with the number of events that carry it,
/// and every label of `evs` is there.
#[verifier::opaque]
pub open spec fn is_label_table(t: Seq<OutputCount>, evs: Seq<EventView>) -> bool {
    &&& forall|a: int, b: int|
        0 <= a < b < t.len() ==> (#[trigger] t[a]).output@ != (#[trigger] t[b]).output@
    &&& forall|a: int| 0 <= a < t.len() ==> (#[trigger] t[a]).count == label_count(evs, t[a].output@)
    &&& forall|j: int| 0 <= j < evs.len() ==> labels_view(t).contains(event_label(#[trigger] evs[j]))
}

/// A bigram with the number of times it occurred.
#[derive(Debug)]
pub struct SfbStats {
    pub presses: u64,
    pub sfb: Sfb,
}

pub struct SfbStatsView {
    pub presses: u64,
    pub sfb: SfbView,
}

impl View for SfbStats {
    type V = SfbStatsView;

    open spec fn view(&self) -> SfbStatsView {
        SfbStatsView { presses: self.presses, sfb: self.sfb@ }
    }
}

pub open spec fn stats_view(v: Seq<SfbStats>) -> Seq<SfbStatsView> {
    v.map_values(|s: SfbStats| s@)
}

impl SfbStats {
    /// A copy of these statistics.
    pub fn duplicate(&self) -> (r: SfbStats)
        ensures
            r@ == self@,
    {
        SfbStats { presses: self.presses, sfb: self.sfb.duplicate() }
    }
}

/// How many of `series` have identity `id`.
pub open spec fn id_count(series: Seq<SfbView>, id: Seq<char>) -> nat
    decreases series.len(),
{
    if series.len() == 0 {
        0
    } else {
        id_count(series.drop_last(), id) + if sfb_id(series.last()) == id {
            1nat
        } else {
            0nat
        }
    }
}

/// `agg` counts the bigrams of `series` by identity: each identity once, with the number of
/// occurrences and one of them as representative, and every identity of `series` is there.
#[verifier::opaque]
pub open spec fn is_sfb_aggregate(agg: Seq<SfbStatsView>, series: Seq<SfbView>) -> bool {
    &&& forall|a: int, b: int|
        0 <= a < b < agg.len() ==> sfb_id((#[trigger] agg[a]).sfb) != sfb_id((#[trigger] agg[b]).sfb)
    &&& forall|a: int|
        0 <= a < agg.len() ==> (#[trigger] agg[a]).presses == id_count(series, sfb_id(agg[a].sfb))
            && series.contains(agg[a].sfb)
    &&& forall|j: int|
        0 <= j < series.len() ==> exists|a: int|
            0 <= a < agg.len() && sfb_id((#[trigger] agg[a]).sfb) == sfb_id(#[trigger] series[j])
}

/// `x` placed into `s` after every entry with at most as many presses.
pub open spec fn insert_by_presses(s: Seq<SfbStatsView>, x: SfbStatsView) -> Seq<SfbStatsView>
    decreases s.len(),
{
    if s.len() == 0 {
        seq![x]
    } else if x.presses < s.last().presses {
        insert_by_presses(s.drop_last(), x).push(s.last())
    } else {
        s.push(x)
    }
}

/// `s` sorted by presses, ascending; entries that tie keep their order.
pub open spec fn sorted_by_presses(s: Seq<SfbStatsView>) -> Seq<SfbStatsView>
    decreases s.len(),
{
    if s.len() == 0 {
        s
    } else {
        insert_by_presses(sorted_by_presses(s.drop_last()), s.last())
    }
}

#[verifier::opaque]
pub open spec fn ascending(s: Seq<SfbStatsView>) -> bool {
    forall|a: int, b: int| 0 <= a < b < s.len() ==> (#[trigger] s[a]).presses <= (#[trigger] s[b]).presses
}

/// The entries of the first `n` of `agg` whose bigram moves `f`.
pub open spec fn touching_upto(agg: Seq<SfbStatsView>, f: FingerAssignment, n: int) -> Seq<SfbStatsView>
    decreases n,
{
    if n <= 0 {
        seq![]
    } else {
        let prev = touching_upto(agg, f, n - 1);
        if sfb_fingers(agg[n - 1].sfb).contains(f) {
            prev.push(agg[n - 1])
        } else {
            prev
        }
    }
}

/// The entries of `agg` whose bigram moves `f`.
pub open spec fn touching(agg: Seq<SfbStatsView>, f: FingerAssignment) -> Seq<SfbStatsView> {
    touching_upto(agg, f, agg.len() as int)
}

/// The bigrams of one finger.
#[derive(Debug)]
pub struct FingerSfbs {
    pub finger: FingerAssignment,
    pub sfbs: Vec<SfbStats>,
}

pub struct FingerSfbsView {
    pub finger: FingerAssignment,
    pub sfbs: Seq<SfbStatsView>,
}

impl View for FingerSfbs {
    type V = FingerSfbsView;

    open spec fn view(&self) -> FingerSfbsView {
        FingerSfbsView { finger: self.finger, sfbs: stats_view(self.sfbs@) }
    }
}

/// For each of the first `r` places of the reading order whose finger some entry of `agg`
/// moves, that finger with those entries.
pub open spec fn by_finger_upto(agg: Seq<SfbStatsView>, r: int) -> Seq<FingerSfbsView>
    decreases r,
{
    if r <= 0 {
        seq![]
    } else {
        let prev = by_finger_upto(agg, r - 1);
        let f = assignment_at_rank((r - 1) as nat);
        if touching(agg, f).len() > 0 {
            prev.push(FingerSfbsView { finger: f, sfbs: touching(agg, f) })
        } else {
            prev
        }
    }
}

/// Each finger that some entry of `agg` moves, with those entries, in reading order.
pub open spec fn by_finger(agg: Seq<SfbStatsView>) -> Seq<FingerSfbsView> {
    by_finger_upto(agg, 10)
}

/// The sum of the presses of the entries of `s`, leaving out those with a combo unless
/// `include_combos`.
pub open spec fn presses_sum(s: Seq<SfbStatsView>, include_combos: bool) -> nat
    decreases s.len(),
{
    if s.len() == 0 {
        0
    } else {
        presses_sum(s.drop_last(), include_combos) + if include_combos || !(s.last().sfb is Combo) {
            s.last().presses as nat
        } else {
            0nat
        }
    }
}

/// The first `n` entries of `s` taken from its end, leaving out those with a combo unless
/// `include_combos`.
pub open spec fn top_from_end(s: Seq<SfbStatsView>, n: nat, include_combos: bool) -> Seq<SfbStatsView>
    decreases s.len(),
{
    if n == 0 || s.len() == 0 {
        seq![]
    } else if include_combos || !(s.last().sfb is Combo) {
        seq![s.last()] + top_from_end(s.drop_last(), (n - 1) as nat, include_combos)
    } else {
        top_from_end(s.drop_last(), n, include_combos)
    }
}

/// The sum of `s`.
pub open spec fn seq_sum(s: Seq<u64>) -> nat
    decreases s.len(),
{
    if s.len() == 0 {
        0
    } else {
        seq_sum(s.drop_last()) + s.last() as nat
    }
}

/// Bound on the number of keys of one event under which the counts fit.
pub open spec fn events_in_bounds(evs: Seq<EventView>) -> bool {
    evs.len() <= u32::MAX && forall|i: int| 0 <= i < evs.len() ==> event_keys(#[trigger] evs[i]).len() <= u32::MAX
}

pub open spec fn sfbs_view(v: Seq<Sfb>) -> Seq<SfbView> {
    v.map_values(|s: Sfb| s@)
}

pub open spec fn finger_sfbs_view(v: Seq<FingerSfbs>) -> Seq<FingerSfbsView> {
    v.map_values(|f: FingerSfbs| f@)
}
/// Statistics of a keystroke log.
#[derive(Debug)]
pub struct KeylogStats {
    /// Each label with the number of events that carry it.
    pub output_frequency: Vec<OutputCount>,
    /// Each finger that was pressed, with its number of presses, in reading order.
    pub finger_frequency: Vec<FingerCount>,
    /// Logical events; a combo activation is one event.
    pub total_events: u64,
    /// Key presses; a combo presses each of its keys.
    pub total_key_presses: u64,
    pub total_key_presses_left: u64,
    pub total_key_presses_right: u64,
    /// Pairs of consecutive events that form a same-finger bigram.
    pub total_sfb_events: u64,
    /// The bigrams by identity, sorted by presses, ascending.
    pub sfbs: Vec<SfbStats>,
    /// For each finger, the bigrams by identity that move it.
    pub sfbs_by_finger: Vec<FingerSfbs>,
    /// The bigrams by identity.
    pub sfbs_by_id: Vec<SfbStats>,
}

/// `st` holds the statistics of the event sequence `evs`.
pub open spec fn stats_of(st: KeylogStats, evs: Seq<EventView>) -> bool {
    let series = sfb_series(evs);
    &&& st.total_events == evs.len()
    &&& st.total_key_presses == key_total(evs)
    &&& st.total_key_presses == counts_sum(st.finger_frequency@)
    &&& st.total_key_presses_left == half_sum(st.finger_frequency@, MatrixHalf::Left)
    &&& st.total_key_presses_right == half_sum(st.finger_frequency@, MatrixHalf::Right)
    &&& st.total_sfb_events == series.len()
    &&& counts_view(st.finger_frequency@) == finger_table(evs)
    &&& is_label_table(st.output_frequency@, evs)
    &&& is_sfb_aggregate(stats_view(st.sfbs_by_id@), series)
    &&& stats_view(st.sfbs@) == sorted_by_presses(stats_view(st.sfbs_by_id@))
    &&& ascending(stats_view(st.sfbs@))
    &&& finger_sfbs_view(st.sfbs_by_finger@) == by_finger(stats_view(st.sfbs_by_id@))
}

/// At most `u32::MAX` entries, each with at most `u32::MAX` presses.
pub open spec fn bounded_stats(v: Seq<SfbStats>) -> bool {
    v.len() <= u32::MAX && forall|j: int| 0 <= j < v.len() ==> (#[trigger] v[j]).presses <= u32::MAX
}

/// Counts fit: each bigram occurred at most `u32::MAX` times and each finger has at most
/// `u32::MAX` bigrams.
pub open spec fn counts_in_bounds(st: KeylogStats) -> bool {
    &&& bounded_stats(st.sfbs_by_id@)
    &&& forall|k: int|
        0 <= k < st.sfbs_by_finger@.len() ==> bounded_stats((#[trigger] st.sfbs_by_finger@[k]).sfbs@)
}

/// Bound on the layout under which the counts of a log of at most `u32::MAX` records fit.
pub open spec fn keymap_in_bounds(km: KeymapView) -> bool {
    forall|c: int| 0 <= c < km.combos.len() ==> (#[trigger] km.combos[c]).keys.len() <= u32::MAX
}

proof fn lemma_resolved_in_bounds(raw: Seq<RawKeylogEntry>, km: KeymapView, policy: MismatchPolicy, n: int)
    requires
        0 <= n <= raw.len() <= u32::MAX,
        keymap_in_bounds(km),
    ensures
        resolve_upto(raw, km, policy, n) matches Ok(evs) ==> events_in_bounds(evs) && evs.len() <= n,
    decreases n,
{
    if n > 0 {
        lemma_resolved_in_bounds(raw, km, policy, n - 1);
    }
}

proof fn lemma_touching_bounded(agg: Seq<SfbStatsView>, f: FingerAssignment, n: int, bound: nat)
    requires
        0 <= n <= agg.len(),
        forall|k: int| 0 <= k < agg.len() ==> #[trigger] agg[k].presses <= bound,
    ensures
        forall|k: int| 0 <= k < touching_upto(agg, f, n).len() ==> #[trigger] touching_upto(agg, f, n)[k].presses <= bound,
    decreases n,
{
    if n > 0 {
        lemma_touching_bounded(agg, f, n - 1, bound);
    }
}

proof fn lemma_by_finger_bounded(agg: Seq<SfbStatsView>, r: int, bound: nat)
    requires
        0 <= r <= 10,
        forall|k: int| 0 <= k < agg.len() ==> #[trigger] agg[k].presses <= bound,
    ensures
        forall|k: int, j: int|
            0 <= k < by_finger_upto(agg, r).len() && 0 <= j < by_finger_upto(agg, r)[k].sfbs.len()
                ==> #[trigger] by_finger_upto(agg, r)[k].sfbs[j].presses <= bound,
    decreases r,
{
    if r > 0 {
        lemma_by_finger_bounded(agg, r - 1, bound);
        lemma_touching_bounded(agg, assignment_at_rank((r - 1) as nat), agg.len() as int, bound);
    }
}

impl KeylogStats {
    /// The statistics of a keystroke log read against a keymap, with `policy` for records that
    /// refer to something the keymap does not have.
    pub fn from_entries_with(keymap: &Keymap, raw_entries: Vec<RawKeylogEntry>, policy: MismatchPolicy) -> (r:
        Result<KeylogStats, KeylogError>)
        requires
            raw_entries@.len() <= u32::MAX,
            keymap_in_bounds(keymap@),
        ensures
            match resolve_log(raw_entries@, keymap@, policy) {
                Ok(evs) => r matches Ok(st) && stats_of(st, evs) && counts_in_bounds(st),
                Err(x) => r == Err::<KeylogStats, KeylogError>(x),
            },
    {
        proof {
            lemma_resolved_in_bounds(raw_entries@, keymap@, policy, raw_entries@.len() as int);
        }
        let entries = match resolve_entries(raw_entries.as_slice(), keymap, policy) {
            Ok(e) => e,
            Err(x) => {
                return Err(x);
            },
        };
        let ghost evs = events_view(entries@);
        let counts = count_presses(&entries);
        let finger_frequency = finger_table_of(&counts.by_rank, Ghost(evs));
        let left = half_total(&finger_frequency, MatrixHalf::Left);
        let right = half_total(&finger_frequency, MatrixHalf::Right);
        let output_frequency = output_table(&entries);
        let series = series_of(&entries);
        let sfbs_by_id = aggregate(&series);
        let sfbs = sort_by_presses(&sfbs_by_id);
        let sfbs_by_finger = group_by_finger(&sfbs_by_id);
        proof {
            lemma_sorted_ascending(stats_view(sfbs_by_id@));
            lemma_by_finger_bounded(stats_view(sfbs_by_id@), 10, series@.len() as nat);
            assert forall|k: int| 0 <= k < stats_view(sfbs_by_id@).len() implies #[trigger] stats_view(
                sfbs_by_id@,
            )[k].presses <= series@.len() as nat by {
                assert(stats_view(sfbs_by_id@)[k] == sfbs_by_id@[k]@);
            }
            assert forall|k: int| 0 <= k < sfbs_by_finger@.len() implies bounded_stats(
                (#[trigger] sfbs_by_finger@[k]).sfbs@,
            ) by {
                assert(finger_sfbs_view(sfbs_by_finger@)[k] == sfbs_by_finger@[k]@);
                assert forall|j: int| 0 <= j < sfbs_by_finger@[k].sfbs@.len() implies (#[trigger] sfbs_by_finger@[k].sfbs@[j]).presses
                    <= u32::MAX by {
                    assert(stats_view(sfbs_by_finger@[k].sfbs@)[j] == sfbs_by_finger@[k].sfbs@[j]@);
                    assert(by_finger_upto(stats_view(sfbs_by_id@), 10)[k].sfbs[j].presses
                        <= series@.len() as nat);
                }
            }
        }
        Ok(
            KeylogStats {
                output_frequency,
                finger_frequency,
                total_events: entries.len() as u64,
                total_key_presses: counts.total,
                total_key_presses_left: left,
                total_key_presses_right: right,
                total_sfb_events: series.len() as u64,
                sfbs,
                sfbs_by_finger,
                sfbs_by_id,
            },
        )
    }
}

/// Presses never increase along `s`.
pub open spec fn descending(s: Seq<SfbStatsView>) -> bool {
    forall|a: int, b: int| 0 <= a < b < s.len() ==> (#[trigger] s[a]).presses >= (#[trigger] s[b]).presses
}

proof fn lemma_top_from_end(s: Seq<SfbStatsView>, n: nat, include_combos: bool)
    ensures
        forall|x: SfbStatsView| #[trigger] top_from_end(s, n, include_combos).contains(x) ==> s.contains(x)
            && (include_combos || !(x.sfb is Combo)),
        ascending(s) ==> descending(top_from_end(s, n, include_combos)),
    decreases s.len(),
{
    reveal(ascending);
    if n > 0 && s.len() > 0 {
        let d = s.drop_last();
        lemma_top_from_end(d, (n - 1) as nat, include_combos);
        lemma_top_from_end(d, n, include_combos);
        let t = top_from_end(s, n, include_combos);
        assert forall|x: SfbStatsView| d.contains(x) implies s.contains(x) by {
            let j = choose|j: int| 0 <= j < d.len() && d[j] == x;
            assert(s[j] == x);
        }
        if include_combos || !(s.last().sfb is Combo) {
            let rest = top_from_end(d, (n - 1) as nat, include_combos);
            assert(t == seq![s.last()] + rest);
            assert forall|x: SfbStatsView| #[trigger] t.contains(x) implies s.contains(x) && (include_combos
                || !(x.sfb is Combo)) by {
                let j = choose|j: int| 0 <= j < t.len() && t[j] == x;
                if j > 0 {
                    assert(rest[j - 1] == x);
                    assert(rest.contains(x));
                } else {
                    assert(s[s.len() - 1] == x);
                }
            }
            if ascending(s) {
                assert(ascending(d)) by {
                    assert forall|a: int, b: int| 0 <= a < b < d.len() implies (#[trigger] d[a]).presses
                        <= (#[trigger] d[b]).presses by {
                        assert(d[a] == s[a] && d[b] == s[b]);
                    }
                }
                assert forall|a: int, b: int| 0 <= a < b < t.len() implies (#[trigger] t[a]).presses >= (
                #[trigger] t[b]).presses by {
                    if a == 0 {
                        assert(rest.contains(t[b]));
                        assert(d.contains(t[b]));
                        let j = choose|j: int| 0 <= j < d.len() && d[j] == t[b];
                        assert(s[j] == t[b]);
                    } else {
                        assert(t[a] == rest[a - 1] && t[b] == rest[b - 1]);
                    }
                }
            }
        } else {
            if ascending(s) {
                assert(ascending(d)) by {
                    assert forall|a: int, b: int| 0 <= a < b < d.len() implies (#[trigger] d[a]).presses
                        <= (#[trigger] d[b]).presses by {
                        assert(d[a] == s[a] && d[b] == s[b]);
                    }
                }
            }
        }
    }
}

impl KeylogStats {
    /// The `count` bigrams with the most presses, taken from the end of `sfbs`, leaving out
    /// those with a combo unless `include_combos`.
    pub fn top_sfbs(&self, count: usize, include_combos: bool) -> (r: Vec<SfbStats>)
        ensures
            stats_view(r@) == top_from_end(stats_view(self.sfbs@), count as nat, include_combos),
            r@.len() <= count,
            !include_combos ==> forall|i: int| 0 <= i < r@.len() ==> !((#[trigger] r@[i])@.sfb is Combo),
            ascending(stats_view(self.sfbs@)) ==> descending(stats_view(r@)),
    {
        let ghost sv = stats_view(self.sfbs@);
        let mut r: Vec<SfbStats> = Vec::new();
        let mut i: usize = self.sfbs.len();
        assert(sv.subrange(0, i as int) == sv);
        while i > 0 && r.len() < count
            invariant
                sv == stats_view(self.sfbs@),
                i <= sv.len(),
                r@.len() <= count,
                top_from_end(sv, count as nat, include_combos) == stats_view(r@) + top_from_end(
                    sv.subrange(0, i as int),
                    (count - r@.len()) as nat,
                    include_combos,
                ),
            decreases i,
        {
            let ghost t = sv.subrange(0, i as int);
            assert(t.drop_last() == sv.subrange(0, i - 1));
            assert(t.last() == self.sfbs@[i - 1]@);
            if include_combos || !self.sfbs[i - 1].sfb.has_combo() {
                let ghost before = r@;
                r.push(self.sfbs[i - 1].duplicate());
                assert(stats_view(r@) == stats_view(before).push(t.last()));
                assert(stats_view(r@) + top_from_end(sv.subrange(0, i - 1), (count - r@.len()) as nat, include_combos)
                    =~= stats_view(before) + (seq![t.last()] + top_from_end(t.drop_last(), (count - before.len() - 1) as nat, include_combos)));
            }
            i = i - 1;
        }
        assert(top_from_end(sv.subrange(0, i as int), (count - r@.len()) as nat, include_combos) =~= Seq::<
            SfbStatsView,
        >::empty());
        assert(stats_view(r@) + Seq::<SfbStatsView>::empty() == stats_view(r@));
        proof {
            lemma_top_from_end(sv, count as nat, include_combos);
            assert forall|i: int| 0 <= i < r@.len() implies include_combos || !((#[trigger] r@[i])@.sfb is Combo) by {
                assert(stats_view(r@)[i] == r@[i]@);
                assert(stats_view(r@).contains(r@[i]@));
            }
        }
        r
    }

    /// For each finger in `sfbs_by_finger`, the presses of its bigrams, leaving out those with a
    /// combo unless `include_combos`, in reading order.
    pub fn sfb_frequency_by_finger(&self, include_combos: bool) -> (r: Vec<FingerCount>)
        requires
            counts_in_bounds(*self),
        ensures
            r@.len() == self.sfbs_by_finger@.len(),
            forall|k: int|
                0 <= k < r@.len() ==> (#[trigger] r@[k]).finger == self.sfbs_by_finger@[k].finger
                    && r@[k].count == presses_sum(stats_view(self.sfbs_by_finger@[k].sfbs@), include_combos),
    {
        let mut r: Vec<FingerCount> = Vec::new();
        let mut k: usize = 0;
        while k < self.sfbs_by_finger.len()
            invariant
                k <= self.sfbs_by_finger@.len(),
                counts_in_bounds(*self),
                r@.len() == k,
                forall|q: int|
                    0 <= q < k ==> (#[trigger] r@[q]).finger == self.sfbs_by_finger@[q].finger
                        && r@[q].count == presses_sum(stats_view(self.sfbs_by_finger@[q].sfbs@), include_combos),
            decreases self.sfbs_by_finger@.len() - k,
        {
            let group = &self.sfbs_by_finger[k];
            let sum = presses_total(&group.sfbs, include_combos);
            r.push(FingerCount { finger: group.finger, count: sum });
            k = k + 1;
        }
        r
    }
}

/// The sum of the presses of `v`, leaving out bigrams with a combo unless `include_combos`.
fn presses_total(v: &Vec<SfbStats>, include_combos: bool) -> (sum: u64)
    requires
        bounded_stats(v@),
    ensures
        sum == presses_sum(stats_view(v@), include_combos),
{
    let ghost gv = stats_view(v@);
    let mut sum: u64 = 0;
    let mut j: usize = 0;
    while j < v.len()
        invariant
            gv == stats_view(v@),
            bounded_stats(v@),
            j <= gv.len(),
            sum == presses_sum(gv.subrange(0, j as int), include_combos),
            sum <= j * 0xFFFF_FFFFu64,
        decreases gv.len() - j,
    {
        let s = &v[j];
        proof {
            let t = gv.subrange(0, j + 1);
            assert(t.drop_last() == gv.subrange(0, j as int));
            assert(t.last() == s@);
        }
        if include_combos || !s.sfb.has_combo() {
            assert(sum + s.presses <= (j + 1) * 0xFFFF_FFFFu64) by (nonlinear_arith)
                requires
                    sum <= j * 0xFFFF_FFFFu64,
                    s.presses <= 0xFFFF_FFFFu64,
            ;
            assert((j + 1) * 0xFFFF_FFFFu64 <= u64::MAX) by (nonlinear_arith)
                requires
                    j < 0xFFFF_FFFFu64,
            ;
            sum = sum + s.presses;
        } else {
            assert(sum <= (j + 1) * 0xFFFF_FFFFu64) by (nonlinear_arith)
                requires
                    sum <= j * 0xFFFF_FFFFu64,
            ;
        }
        j = j + 1;
    }
    assert(gv.subrange(0, j as int) == gv);
    sum
}

impl KeylogStats {
    /// The presses of all bigrams, leaving out those with a combo unless `include_combos`.
    pub fn sfb_presses(&self, include_combos: bool) -> (r: u64)
        requires
            counts_in_bounds(*self),
        ensures
            r == presses_sum(stats_view(self.sfbs_by_id@), include_combos),
    {
        presses_total(&self.sfbs_by_id, include_combos)
    }
}

proof fn lemma_half_sum_le(t: Seq<FingerCount>, h: MatrixHalf)
    ensures
        half_sum(t, h) <= counts_sum(t),
    decreases t.len(),
{
    if t.len() > 0 {
        lemma_half_sum_le(t.drop_last(), h);
    }
}

/// The sum of the counts in `t` that belong to hand `h`.
fn half_total(t: &Vec<FingerCount>, h: MatrixHalf) -> (r: u64)
    requires
        counts_sum(t@) <= u64::MAX,
    ensures
        r == half_sum(t@, h),
{
    let mut r: u64 = 0;
    let mut i: usize = 0;
    while i < t.len()
        invariant
            i <= t@.len(),
            counts_sum(t@) <= u64::MAX,
            r == half_sum(t@.subrange(0, i as int), h),
        decreases t@.len() - i,
    {
        proof {
            let u = t@.subrange(0, i + 1);
            assert(u.drop_last() == t@.subrange(0, i as int));
            assert(u.last() == t@[i as int]);
            lemma_half_sum_le(u, h);
            lemma_counts_sum_prefix(t@, i + 1);
        }
        if t[i].finger.half == h {
            r = r + t[i].count;
        }
        i = i + 1;
    }
    assert(t@.subrange(0, i as int) == t@);
    r
}

proof fn lemma_counts_sum_prefix(t: Seq<FingerCount>, n: int)
    requires
        0 <= n <= t.len(),
    ensures
        counts_sum(t.subrange(0, n)) <= counts_sum(t),
    decreases t.len() - n,
{
    if n < t.len() {
        lemma_counts_sum_prefix(t, n + 1);
        assert(t.subrange(0, n + 1).drop_last() == t.subrange(0, n));
    } else {
        assert(t.subrange(0, n) == t);
    }
}

/// The count for `finger` in `table`, if it has one.
pub fn count_for(table: &[FingerCount], finger: &FingerAssignment) -> (r: Option<u64>)
    ensures
        r matches Some(c) ==> exists|k: int| 0 <= k < table@.len() && #[trigger] table@[k] == (FingerCount { finger: *finger, count: c }),
        r is None ==> forall|k: int| 0 <= k < table@.len() ==> (#[trigger] table@[k]).finger != *finger,
{
    let mut k: usize = 0;
    while k < table.len()
        invariant
            k <= table@.len(),
            forall|q: int| 0 <= q < k ==> (#[trigger] table@[q]).finger != *finger,
        decreases table@.len() - k,
    {
        let c = table[k];
        if c.finger == *finger {
            assert(table@[k as int] == (FingerCount { finger: *finger, count: c.count }));
            return Some(c.count);
        }
        k = k + 1;
    }
    None
}

impl KeylogStats {
    /// The statistics of a keystroke log read against the keymap of `info`; a record that
    /// refers to something the keymap does not have fails the whole log.
    pub fn from_entries(info: &InputInfo, raw_entries: Vec<RawKeylogEntry>) -> (r: Result<
        KeylogStats,
        KeylogError,
    >)
        requires
            raw_entries@.len() <= u32::MAX,
            keymap_in_bounds(info.keymap@),
        ensures
            match resolve_log(raw_entries@, info.keymap@, MismatchPolicy::Fail) {
                Ok(evs) => r matches Ok(st) && stats_of(st, evs) && counts_in_bounds(st),
                Err(x) => r == Err::<KeylogStats, KeylogError>(x),
            },
    {
        KeylogStats::from_entries_with(&info.keymap, raw_entries, MismatchPolicy::Fail)
    }

    /// The press count of `finger`, if it was pressed at all.
    pub fn finger_frequency_of(&self, finger: &FingerAssignment) -> (r: Option<u64>)
        ensures
            r matches Some(c) ==> exists|k: int|
                0 <= k < self.finger_frequency@.len() && #[trigger] self.finger_frequency@[k] == (FingerCount {
                    finger: *finger,
                    count: c,
                }),
            r is None ==> forall|k: int|
                0 <= k < self.finger_frequency@.len() ==> (#[trigger] self.finger_frequency@[k]).finger
                    != *finger,
    {
        count_for(self.finger_frequency.as_slice(), finger)
    }
}

} // verus!
