use vstd::prelude::*;

use crate::finger::FingerAssignment;
use crate::keylog::{EventView, KeylogEntry};
use crate::keymap::{
    combo_key_sfb, combos_sfb, duplicate_keys, fingers_of, key_finger, keys_view, Combo, ComboView,
    Key, KeyView,
};
use crate::physical::positions_are_sfb;
use crate::text::{pad_left, pad_right, spaces};

verus! {

/// The keys that an event presses.
pub open spec fn event_keys(e: EventView) -> Seq<KeyView> {
    match e {
        EventView::Combo(c) => c.keys,
        EventView::Single { key, .. } => seq![key],
    }
}

/// Whether a single key `k` right after event `e` is a same-finger bigram.
pub open spec fn key_after_sfb(e: EventView, k: KeyView) -> bool {
    match e {
        EventView::Combo(c) => combo_key_sfb(c, k),
        EventView::Single { key, .. } => positions_are_sfb(k.physical_pos, key.physical_pos),
    }
}

/// Whether combo `c` right after event `e` is a same-finger bigram.
pub open spec fn combo_after_sfb(e: EventView, c: ComboView) -> bool {
    match e {
        EventView::Combo(mine) => combos_sfb(mine, c),
        EventView::Single { key, .. } => combo_key_sfb(c, key),
    }
}

/// Whether event `b` right after event `a` moves one finger between different places.
pub open spec fn events_sfb(a: EventView, b: EventView) -> bool {
    match a {
        EventView::Combo(c) => combo_after_sfb(b, c),
        EventView::Single { key, .. } => key_after_sfb(b, key),
    }
}

/// A same-finger bigram: two single keys, or a pair in which at least one side is a combo.
#[derive(Debug)]
pub enum Sfb {
    Combo { first_keys: Vec<Key>, second_keys: Vec<Key>, fingers: Vec<FingerAssignment> },
    Single { first_key: Key, second_key: Key, finger: FingerAssignment },
}

pub enum SfbView {
    Combo { first_keys: Seq<KeyView>, second_keys: Seq<KeyView>, fingers: Set<FingerAssignment> },
    Single { first_key: KeyView, second_key: KeyView, finger: FingerAssignment },
}

impl View for Sfb {
    type V = SfbView;

    open spec fn view(&self) -> SfbView {
        match self {
            Sfb::Combo { first_keys, second_keys, fingers } => SfbView::Combo {
                first_keys: keys_view(first_keys@),
                second_keys: keys_view(second_keys@),
                fingers: fingers@.to_set(),
            },
            Sfb::Single { first_key, second_key, finger } => SfbView::Single {
                first_key: first_key@,
                second_key: second_key@,
                finger: *finger,
            },
        }
    }
}

/// The bigram that event `b` right after event `a` forms: for two single keys the finger is
/// the first key's; for a pair with a combo the fingers are those of both sides.
pub open spec fn sfb_of(a: EventView, b: EventView) -> SfbView {
    match (a, b) {
        (EventView::Single { key: ka, .. }, EventView::Single { key: kb, .. }) => SfbView::Single {
            first_key: ka,
            second_key: kb,
            finger: key_finger(ka),
        },
        _ => SfbView::Combo {
            first_keys: event_keys(a),
            second_keys: event_keys(b),
            fingers: fingers_of(event_keys(a)).union(fingers_of(event_keys(b))),
        },
    }
}

/// The bigram of `a` then `b`, if they form one.
pub open spec fn new_sfb(a: EventView, b: EventView) -> Option<SfbView> {
    if events_sfb(a, b) {
        Some(sfb_of(a, b))
    } else {
        None
    }
}

/// The bigrams of every two consecutive events, in order.
pub open spec fn sfb_series(evs: Seq<EventView>) -> Seq<SfbView>
    decreases evs.len(),
{
    if evs.len() < 2 {
        seq![]
    } else {
        let pre = sfb_series(evs.drop_last());
        if events_sfb(evs[evs.len() - 2], evs.last()) {
            pre.push(sfb_of(evs[evs.len() - 2], evs.last()))
        } else {
            pre
        }
    }
}

/// The keys on the first side of a bigram.
pub open spec fn sfb_first_keys(s: SfbView) -> Seq<KeyView> {
    match s {
        SfbView::Combo { first_keys, .. } => first_keys,
        SfbView::Single { first_key, .. } => seq![first_key],
    }
}

/// The keys on the second side of a bigram.
pub open spec fn sfb_second_keys(s: SfbView) -> Seq<KeyView> {
    match s {
        SfbView::Combo { second_keys, .. } => second_keys,
        SfbView::Single { second_key, .. } => seq![second_key],
    }
}

/// The fingers that a bigram moves.
pub open spec fn sfb_fingers(s: SfbView) -> Set<FingerAssignment> {
    match s {
        SfbView::Combo { fingers, .. } => fingers,
        SfbView::Single { finger, .. } => set![finger],
    }
}

/// The symbols of `keys` joined by commas.
pub open spec fn joined_ids(keys: Seq<KeyView>) -> Seq<char>
    decreases keys.len(),
{
    if keys.len() == 0 {
        seq![]
    } else if keys.len() == 1 {
        keys[0].id
    } else {
        joined_ids(keys.drop_last()) + seq![','] + keys.last().id
    }
}

/// Width of the field that holds the first side of a bigram's identity, right-aligned.
pub const FIRST_FIELD: usize = 22;

/// Width of the field that holds the second side of a bigram's identity, left-aligned.
pub const SECOND_FIELD: usize = 20;

/// The identity string of a bigram: the first side's symbols right-aligned, four spaces, the
/// second side's symbols left-aligned.
#[verifier::opaque]
pub open spec fn sfb_id(s: SfbView) -> Seq<char> {
    pad_left(joined_ids(sfb_first_keys(s)), FIRST_FIELD as nat) + spaces(4) + pad_right(
        joined_ids(sfb_second_keys(s)),
        SECOND_FIELD as nat,
    )
}

/// The symbols of `keys` joined by commas.
fn join_ids(keys: &Vec<Key>) -> (r: String)
    ensures
        r@ == joined_ids(keys_view(keys@)),
{
    let ghost kv = keys_view(keys@);
    let mut r = String::new();
    if keys.len() == 0 {
        return r;
    }
    r.append(keys[0].id.0.as_str());
    let mut i: usize = 1;
    proof {
        assert(kv.subrange(0, 1).len() == 1);
        assert(kv.subrange(0, 1)[0] == kv[0]);
    }
    while i < keys.len()
        invariant
            kv == keys_view(keys@),
            1 <= i <= kv.len(),
            r@ == joined_ids(kv.subrange(0, i as int)),
        decreases kv.len() - i,
    {
        proof {
            reveal_strlit(",");
            let t = kv.subrange(0, i + 1);
            assert(t.drop_last() == kv.subrange(0, i as int));
            assert(t.last() == kv[i as int]);
        }
        r.append(",");
        r.append(keys[i].id.0.as_str());
        i = i + 1;
    }
    assert(kv.subrange(0, i as int) == kv);
    r
}

/// Appends `n` spaces to `s`.
fn append_spaces(s: &mut String, n: usize)
    ensures
        final(s)@ == old(s)@ + spaces(n as nat),
{
    let mut i: usize = 0;
    while i < n
        invariant
            i <= n,
            s@ == old(s)@ + spaces(i as nat),
        decreases n - i,
    {
        proof {
            reveal_strlit(" ");
        }
        s.append(" ");
        i = i + 1;
        assert(s@ =~= old(s)@ + spaces(i as nat));
    }
}

/// `s` right-aligned in a field of `w` characters.
fn padded_left(s: &String, w: usize) -> (r: String)
    ensures
        r@ == pad_left(s@, w as nat),
{
    let n = s.as_str().unicode_len();
    let mut r = String::new();
    if n < w {
        append_spaces(&mut r, w - n);
    }
    r.append(s.as_str());
    assert(r@ =~= pad_left(s@, w as nat));
    r
}

impl Sfb {
    /// The bigram that `next` right after `current` forms, if they form one.
    pub fn new_if_sfb(current: &KeylogEntry<'_>, next: &KeylogEntry<'_>) -> (r: Option<Sfb>)
        ensures
            match new_sfb(current@, next@) {
                Some(s) => r matches Some(x) && x@ == s,
                None => r is None,
            },
    {
        if !current.is_entry_sfb(next) {
            return None;
        }
        match (current, next) {
            (KeylogEntry::Single { key: a, .. }, KeylogEntry::Single { key: b, .. }) => {
                Some(
                    Sfb::Single {
                        first_key: a.duplicate(),
                        second_key: b.duplicate(),
                        finger: a.physical_pos.finger,
                    },
                )
            },
            _ => {
                let first_keys = entry_keys(current);
                let second_keys = entry_keys(next);
                let mut fingers = fingers_of_keys(&first_keys);
                let more = fingers_of_keys(&second_keys);
                let mut j: usize = 0;
                let ghost base = fingers@;
                while j < more.len()
                    invariant
                        j <= more@.len(),
                        fingers@.to_set() == base.to_set().union(more@.subrange(0, j as int).to_set()),
                    decreases more@.len() - j,
                {
                    let f = more[j];
                    let ghost prev = fingers@;
                    if !contains_finger(&fingers, &f) {
                        fingers.push(f);
                    }
                    proof {
                        assert(more@.subrange(0, j + 1) == more@.subrange(0, j as int).push(f));
                        more@.subrange(0, j as int).lemma_push_to_set_commute(f);
                        prev.lemma_push_to_set_commute(f);
                        if prev.contains(f) {
                            assert(prev.to_set().insert(f) =~= prev.to_set());
                        }
                        assert(fingers@.to_set() =~= prev.to_set().insert(f));
                    }
                    j = j + 1;
                }
                assert(more@.subrange(0, j as int) == more@);
                let r = Sfb::Combo { first_keys, second_keys, fingers };
                assert(r@ == sfb_of(current@, next@));
                Some(r)
            },
        }
    }

    /// Whether at least one side of the bigram is a combo.
    pub fn has_combo(&self) -> (r: bool)
        ensures
            r == self@ is Combo,
    {
        matches!(self, Sfb::Combo { .. })
    }

    /// The identity string under which equal bigrams are counted together.
    pub fn id(&self) -> (r: String)
        ensures
            r@ == sfb_id(self@),
    {
        let first = self.first_ids_to_string();
        let second = self.second_ids_to_string();
        let mut r = padded_left(&first, FIRST_FIELD);
        append_spaces(&mut r, 4);
        r.append(second.as_str());
        let n = second.as_str().unicode_len();
        if n < SECOND_FIELD {
            append_spaces(&mut r, SECOND_FIELD - n);
        }
        reveal(sfb_id);
        assert(r@ =~= sfb_id(self@));
        r
    }

    /// The symbols of the first side, joined by commas.
    pub fn first_ids_to_string(&self) -> (r: String)
        ensures
            r@ == joined_ids(sfb_first_keys(self@)),
    {
        match self {
            Sfb::Combo { first_keys, .. } => join_ids(first_keys),
            Sfb::Single { first_key, .. } => {
                let r = first_key.id.0.clone();
                assert(seq![first_key@].len() == 1);
                r
            },
        }
    }

    /// The symbols of the second side, joined by commas.
    pub fn second_ids_to_string(&self) -> (r: String)
        ensures
            r@ == joined_ids(sfb_second_keys(self@)),
    {
        match self {
            Sfb::Combo { second_keys, .. } => join_ids(second_keys),
            Sfb::Single { second_key, .. } => {
                let r = second_key.id.0.clone();
                assert(seq![second_key@].len() == 1);
                r
            },
        }
    }

    /// The fingers that the bigram moves.
    pub fn get_fingers(&self) -> (r: Vec<FingerAssignment>)
        ensures
            r@.to_set() == sfb_fingers(self@),
    {
        match self {
            Sfb::Combo { fingers, .. } => {
                let mut r: Vec<FingerAssignment> = Vec::new();
                let mut i: usize = 0;
                while i < fingers.len()
                    invariant
                        i <= fingers@.len(),
                        r@ == fingers@.subrange(0, i as int),
                    decreases fingers@.len() - i,
                {
                    r.push(fingers[i]);
                    i = i + 1;
                }
                assert(fingers@.subrange(0, i as int) == fingers@);
                r
            },
            Sfb::Single { finger, .. } => {
                let r = vec![*finger];
                assert(r@.to_set() =~= set![*finger]);
                r
            },
        }
    }

    /// Whether the bigram moves `finger`.
    pub fn touches(&self, finger: &FingerAssignment) -> (r: bool)
        ensures
            r == sfb_fingers(self@).contains(*finger),
    {
        match self {
            Sfb::Combo { fingers, .. } => contains_finger(fingers, finger),
            Sfb::Single { finger: f, .. } => *f == *finger,
        }
    }

    /// A copy of this bigram.
    pub fn duplicate(&self) -> (r: Sfb)
        ensures
            r@ == self@,
    {
        match self {
            Sfb::Combo { first_keys, second_keys, fingers } => {
                let fingers = self.get_fingers();
                Sfb::Combo {
                    first_keys: duplicate_keys(first_keys),
                    second_keys: duplicate_keys(second_keys),
                    fingers,
                }
            },
            Sfb::Single { first_key, second_key, finger } => Sfb::Single {
                first_key: first_key.duplicate(),
                second_key: second_key.duplicate(),
                finger: *finger,
            },
        }
    }
}

fn contains_finger(v: &Vec<FingerAssignment>, f: &FingerAssignment) -> (r: bool)
    ensures
        r == v@.contains(*f),
{
    let mut i: usize = 0;
    while i < v.len()
        invariant
            i <= v@.len(),
            forall|j: int| 0 <= j < i ==> v@[j] != *f,
        decreases v@.len() - i,
    {
        if v[i] == *f {
            return true;
        }
        i = i + 1;
    }
    false
}

/// Copies of the keys that an event presses.
fn entry_keys(e: &KeylogEntry<'_>) -> (r: Vec<Key>)
    ensures
        keys_view(r@) == event_keys(e@),
{
    match e {
        KeylogEntry::Combo(c) => duplicate_keys(&c.keys),
        KeylogEntry::Single { key, .. } => {
            let r = vec![key.duplicate()];
            assert(keys_view(r@) =~= seq![key@]);
            r
        },
    }
}

/// The fingers that operate `keys`, each once.
fn fingers_of_keys(keys: &Vec<Key>) -> (r: Vec<FingerAssignment>)
    ensures
        r@.to_set() == fingers_of(keys_view(keys@)),
{
    let c = Combo { id: String::new(), output: String::new(), keys: duplicate_keys(keys) };
    c.get_fingers()
}

impl<'a> KeylogEntry<'a> {
    /// Whether `key` right after this event is a same-finger bigram.
    pub fn is_key_sfb(&self, key: &Key) -> (r: bool)
        ensures
            r == key_after_sfb(self@, key@),
    {
        match self {
            KeylogEntry::Combo(combo) => combo.is_key_sfb(key),
            KeylogEntry::Single { key: other, .. } => key.is_sfb(other),
        }
    }

    /// Whether `combo` right after this event is a same-finger bigram.
    pub fn is_combo_sfb(&self, combo: &Combo) -> (r: bool)
        ensures
            r == combo_after_sfb(self@, combo@),
    {
        match self {
            KeylogEntry::Combo(my_combo) => my_combo.is_combo_sfb(combo),
            KeylogEntry::Single { key, .. } => combo.is_key_sfb(key),
        }
    }

    /// Whether this event followed by `other` is a same-finger bigram.
    pub fn is_entry_sfb(&self, other: &KeylogEntry) -> (r: bool)
        ensures
            r == events_sfb(self@, other@),
    {
        match self {
            KeylogEntry::Combo(combo) => other.is_combo_sfb(combo),
            KeylogEntry::Single { key, .. } => other.is_key_sfb(key),
        }
    }
}

} // verus!
