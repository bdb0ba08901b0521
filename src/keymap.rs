use vstd::prelude::*;

use crate::finger::FingerAssignment;
use crate::physical::{pos_of, positions_are_sfb, PhysicalPos};
use crate::text::str_eq;

verus! {

/// The symbol of a key in a keymap, such as `SE_A`.
#[derive(Clone, Debug)]
pub struct KeyId(pub String);

/// The name of a layer, such as `_BASE`.
#[derive(Clone, Debug)]
pub struct LayerId(pub String);

/// The name of a layout macro, such as `LAYOUT`.
#[derive(Clone, Debug)]
pub struct LayoutId(pub String);

impl View for KeyId {
    type V = Seq<char>;

    open spec fn view(&self) -> Seq<char> {
        self.0@
    }
}

impl View for LayerId {
    type V = Seq<char>;

    open spec fn view(&self) -> Seq<char> {
        self.0@
    }
}

impl View for LayoutId {
    type V = Seq<char>;

    open spec fn view(&self) -> Seq<char> {
        self.0@
    }
}

/// One layer as a keymap source writes it: its name, its layout macro and its key symbols.
#[derive(Clone, Debug)]
pub struct LayerDef {
    pub layer_id: LayerId,
    pub layout_id: LayoutId,
    pub keys: Vec<KeyId>,
}

/// A key of one layer: its symbol, where it sits, and its firmware matrix coordinate.
#[derive(Debug)]
pub struct Key {
    pub id: KeyId,
    pub physical_pos: PhysicalPos,
    pub matrix_pos: (usize, usize),
}

pub struct KeyView {
    pub id: Seq<char>,
    pub physical_pos: PhysicalPos,
    pub matrix_pos: (usize, usize),
}

impl View for Key {
    type V = KeyView;

    open spec fn view(&self) -> KeyView {
        KeyView { id: self.id@, physical_pos: self.physical_pos, matrix_pos: self.matrix_pos }
    }
}

pub open spec fn keys_view(keys: Seq<Key>) -> Seq<KeyView> {
    keys.map_values(|k: Key| k@)
}

/// The physical position of a key as (column, row).
pub open spec fn key_pos(k: KeyView) -> (usize, usize) {
    pos_of(k.physical_pos)
}

pub open spec fn key_finger(k: KeyView) -> FingerAssignment {
    k.physical_pos.finger
}

/// The index of the first key at or after `i` that satisfies `p`.
pub open spec fn first_match_from(keys: Seq<KeyView>, p: spec_fn(KeyView) -> bool, i: int) -> Option<
    int,
>
    decreases keys.len() - i,
{
    if i < 0 || i >= keys.len() {
        None
    } else if p(keys[i]) {
        Some(i)
    } else {
        first_match_from(keys, p, i + 1)
    }
}

/// The index of the first key that satisfies `p`.
pub open spec fn first_match(keys: Seq<KeyView>, p: spec_fn(KeyView) -> bool) -> Option<int> {
    first_match_from(keys, p, 0)
}

/// The key that `first_match` finds, if any.
pub open spec fn found_key(keys: Seq<KeyView>, p: spec_fn(KeyView) -> bool) -> Option<KeyView> {
    match first_match(keys, p) {
        Some(i) => Some(keys[i]),
        None => None,
    }
}

pub open spec fn key_ref_view(r: Option<&Key>) -> Option<KeyView> {
    match r {
        Some(k) => Some(k@),
        None => None,
    }
}

proof fn lemma_first_match_bounds(keys: Seq<KeyView>, p: spec_fn(KeyView) -> bool, i: int)
    ensures
        first_match_from(keys, p, i) matches Some(j) ==> i <= j < keys.len() && p(keys[j]),
    decreases keys.len() - i,
{
    if 0 <= i < keys.len() && !p(keys[i]) {
        lemma_first_match_bounds(keys, p, i + 1);
    }
}

/// The first of `keys` that satisfies `p`.
fn find_key<'a>(keys: &'a Vec<Key>, p: Ghost<spec_fn(KeyView) -> bool>, sel: KeySelector<'_>) -> (r:
    Option<&'a Key>)
    requires
        forall|k: KeyView| #[trigger] p@(k) == sel.selects(k),
    ensures
        key_ref_view(r) == found_key(keys_view(keys@), p@),
{
    let ghost kv = keys_view(keys@);
    let mut i: usize = 0;
    while i < keys.len()
        invariant
            kv == keys_view(keys@),
            i <= keys@.len(),
            forall|k: KeyView| #[trigger] p@(k) == sel.selects(k),
            first_match(kv, p@) == first_match_from(kv, p@, i as int),
        decreases keys@.len() - i,
    {
        let k = &keys[i];
        assert(kv[i as int] == k@);
        if sel.matches(k) {
            return Some(k);
        }
        i = i + 1;
    }
    None
}

/// What a key is looked up by.
pub enum KeySelector<'s> {
    Id(&'s str),
    Matrix((usize, usize)),
    Physical((usize, usize)),
}

impl<'s> KeySelector<'s> {
    pub open spec fn selects(&self, k: KeyView) -> bool {
        match self {
            KeySelector::Id(s) => k.id == s@,
            KeySelector::Matrix(m) => k.matrix_pos == *m,
            KeySelector::Physical(p) => key_pos(k) == *p,
        }
    }

    pub fn matches(&self, k: &Key) -> (r: bool)
        ensures
            r == self.selects(k@),
    {
        match self {
            KeySelector::Id(s) => str_eq(k.id.0.as_str(), s),
            KeySelector::Matrix(m) => k.matrix_pos.0 == m.0 && k.matrix_pos.1 == m.1,
            KeySelector::Physical(p) => k.physical_pos.col == p.0 && k.physical_pos.row == p.1,
        }
    }
}

impl Key {
    /// Whether typing `self` then `other` moves one finger between two places.
    pub fn is_sfb(&self, other: &Key) -> (r: bool)
        ensures
            r == positions_are_sfb(self.physical_pos, other.physical_pos),
    {
        self.physical_pos.is_sfb(&other.physical_pos)
    }

    /// A copy of this key.
    pub fn duplicate(&self) -> (r: Key)
        ensures
            r@ == self@,
    {
        Key {
            id: KeyId(self.id.0.clone()),
            physical_pos: self.physical_pos,
            matrix_pos: self.matrix_pos,
        }
    }
}

} // verus!

verus! {

/// A chord: several physical keys pressed together that produce one output.
#[derive(Debug)]
pub struct Combo {
    pub id: String,
    pub output: String,
    pub keys: Vec<Key>,
}

pub struct ComboView {
    pub id: Seq<char>,
    pub output: Seq<char>,
    pub keys: Seq<KeyView>,
}

impl View for Combo {
    type V = ComboView;

    open spec fn view(&self) -> ComboView {
        ComboView { id: self.id@, output: self.output@, keys: keys_view(self.keys@) }
    }
}

/// Whether one of `keys` sits at `pos`.
pub open spec fn keys_have_pos(keys: Seq<KeyView>, pos: (usize, usize)) -> bool {
    exists|i: int| 0 <= i < keys.len() && key_pos(#[trigger] keys[i]) == pos
}

/// Whether one of `keys` is operated by `finger`.
pub open spec fn keys_have_finger(keys: Seq<KeyView>, finger: FingerAssignment) -> bool {
    exists|i: int| 0 <= i < keys.len() && key_finger(#[trigger] keys[i]) == finger
}

/// The fingers that operate `keys`.
pub open spec fn fingers_of(keys: Seq<KeyView>) -> Set<FingerAssignment> {
    Set::new(|f: FingerAssignment| keys_have_finger(keys, f))
}

/// The physical positions of `keys`.
pub open spec fn positions_of(keys: Seq<KeyView>) -> Set<(usize, usize)> {
    Set::new(|p: (usize, usize)| keys_have_pos(keys, p))
}

/// A single key after a combo, or before it, is a same-finger bigram when it does not sit
/// among the combo's keys and its finger is among the combo's fingers.
pub open spec fn combo_key_sfb(c: ComboView, k: KeyView) -> bool {
    !keys_have_pos(c.keys, key_pos(k)) && keys_have_finger(c.keys, key_finger(k))
}

/// Two combos in a row are a same-finger bigram when their positions are disjoint and their
/// fingers are not.
pub open spec fn combos_sfb(a: ComboView, b: ComboView) -> bool {
    (forall|i: int, j: int|
        0 <= i < a.keys.len() && 0 <= j < b.keys.len() ==> key_pos(#[trigger] a.keys[i]) != key_pos(
            #[trigger] b.keys[j],
        )) && (exists|i: int, j: int|
        0 <= i < a.keys.len() && 0 <= j < b.keys.len() && key_finger(#[trigger] a.keys[i])
            == key_finger(#[trigger] b.keys[j]))
}

/// Sort order of combo keys: by column, then by row.
pub open spec fn key_sorts_before(a: KeyView, b: KeyView) -> bool {
    a.physical_pos.col < b.physical_pos.col || (a.physical_pos.col == b.physical_pos.col
        && a.physical_pos.row < b.physical_pos.row)
}

/// `x` placed into `s` after every key that does not sort after it.
pub open spec fn insert_sorted(s: Seq<KeyView>, x: KeyView) -> Seq<KeyView>
    decreases s.len(),
{
    if s.len() == 0 {
        seq![x]
    } else if key_sorts_before(x, s.last()) {
        insert_sorted(s.drop_last(), x).push(s.last())
    } else {
        s.push(x)
    }
}

/// `s` sorted by column, then row; keys that tie keep their order.
pub open spec fn sorted_keys(s: Seq<KeyView>) -> Seq<KeyView>
    decreases s.len(),
{
    if s.len() == 0 {
        s
    } else {
        insert_sorted(sorted_keys(s.drop_last()), s.last())
    }
}

/// No key of `s` sorts before an earlier one.
pub open spec fn keys_in_order(s: Seq<KeyView>) -> bool {
    forall|a: int, b: int| 0 <= a < b < s.len() ==> !key_sorts_before(#[trigger] s[b], #[trigger] s[a])
}

proof fn lemma_insert_sorted_in_order(s: Seq<KeyView>, x: KeyView)
    requires
        keys_in_order(s),
    ensures
        keys_in_order(insert_sorted(s, x)),
        insert_sorted(s, x).len() == s.len() + 1,
        forall|y: KeyView| #[trigger] insert_sorted(s, x).contains(y) ==> y == x || s.contains(y),
    decreases s.len(),
{
    if s.len() > 0 {
        let d = s.drop_last();
        assert forall|a: int, b: int| 0 <= a < b < d.len() implies !key_sorts_before(#[trigger] d[b], #[trigger] d[a]) by {
            assert(d[a] == s[a] && d[b] == s[b]);
        }
        if key_sorts_before(x, s.last()) {
            lemma_insert_sorted_in_order(d, x);
            let t = insert_sorted(d, x);
            assert forall|y: KeyView| t.contains(y) implies !key_sorts_before(s.last(), y) by {
                if y != x {
                    let j = choose|j: int| 0 <= j < d.len() && d[j] == y;
                    assert(s[j] == y);
                }
            }
            let u = t.push(s.last());
            assert forall|a: int, b: int| 0 <= a < b < u.len() implies !key_sorts_before(#[trigger] u[b], #[trigger] u[a]) by {
                if b == t.len() {
                    assert(t.contains(t[a]));
                } else {
                    assert(u[a] == t[a] && u[b] == t[b]);
                }
            }
            assert forall|y: KeyView| #[trigger] u.contains(y) implies y == x || s.contains(y) by {
                let j = choose|j: int| 0 <= j < u.len() && u[j] == y;
                if j < t.len() {
                    assert(t[j] == y);
                    assert(t.contains(y));
                    if y != x {
                        let k = choose|k: int| 0 <= k < d.len() && d[k] == y;
                        assert(s[k] == y);
                    }
                } else {
                    assert(s[s.len() - 1] == y);
                }
            }
        } else {
            let u = s.push(x);
            assert forall|a: int, b: int| 0 <= a < b < u.len() implies !key_sorts_before(#[trigger] u[b], #[trigger] u[a]) by {
                if b == s.len() {
                    if a < s.len() - 1 {
                        assert(!key_sorts_before(s[s.len() - 1], s[a]));
                    }
                } else {
                    assert(u[a] == s[a] && u[b] == s[b]);
                }
            }
            assert forall|y: KeyView| #[trigger] u.contains(y) implies y == x || s.contains(y) by {
                let j = choose|j: int| 0 <= j < u.len() && u[j] == y;
                if j < s.len() {
                    assert(s[j] == y);
                }
            }
        }
    } else {
        assert forall|y: KeyView| #[trigger] seq![x].contains(y) implies y == x || s.contains(y) by {
            let j = choose|j: int| 0 <= j < 1 && seq![x][j] == y;
        }
    }
}

/// The keys that `sorted_keys` returns are in order of column, then row, and there are as many
/// as it was given.
pub proof fn lemma_sorted_keys_in_order(s: Seq<KeyView>)
    ensures
        keys_in_order(sorted_keys(s)),
        sorted_keys(s).len() == s.len(),
    decreases s.len(),
{
    if s.len() > 0 {
        lemma_sorted_keys_in_order(s.drop_last());
        lemma_insert_sorted_in_order(sorted_keys(s.drop_last()), s.last());
    }
}

impl Combo {
    /// A combo whose keys are sorted by column, then row.
    pub fn new(id: String, output: String, keys: Vec<Key>) -> (r: Combo)
        ensures
            r.id@ == id@,
            r.output@ == output@,
            r@.keys == sorted_keys(keys_view(keys@)),
            keys_in_order(r@.keys),
            r@.keys.len() == keys@.len(),
    {
        proof {
            lemma_sorted_keys_in_order(keys_view(keys@));
        }
        let ghost kv = keys_view(keys@);
        let mut sorted: Vec<Key> = Vec::new();
        let mut n: usize = 0;
        while n < keys.len()
            invariant
                kv == keys_view(keys@),
                n <= kv.len(),
                keys_view(sorted@) == sorted_keys(kv.subrange(0, n as int)),
            decreases kv.len() - n,
        {
            proof {
                assert(kv.subrange(0, n + 1).drop_last() == kv.subrange(0, n as int));
            }
            insert_key_sorted(&mut sorted, keys[n].duplicate());
            n = n + 1;
        }
        assert(kv.subrange(0, kv.len() as int) == kv);
        Combo { id, output, keys: sorted }
    }
}

impl Combo {
    /// Whether one of the combo's keys has the symbol `input`.
    pub fn contains_input_key(&self, input: &str) -> (r: bool)
        ensures
            r == exists|i: int| 0 <= i < self@.keys.len() && (#[trigger] self@.keys[i]).id == input@,
    {
        let mut i: usize = 0;
        while i < self.keys.len()
            invariant
                i <= self.keys@.len(),
                forall|j: int| 0 <= j < i ==> (#[trigger] self@.keys[j]).id != input@,
            decreases self.keys@.len() - i,
        {
            if str_eq(self.keys[i].id.0.as_str(), input) {
                assert(self@.keys[i as int].id == input@);
                return true;
            }
            i = i + 1;
        }
        false
    }

    /// Whether one of the combo's keys sits at `pos`.
    pub fn contains_physical_pos(&self, pos: (usize, usize)) -> (r: bool)
        ensures
            r == keys_have_pos(self@.keys, pos),
    {
        let mut i: usize = 0;
        while i < self.keys.len()
            invariant
                i <= self.keys@.len(),
                forall|j: int| 0 <= j < i ==> key_pos(#[trigger] self@.keys[j]) != pos,
            decreases self.keys@.len() - i,
        {
            let p = &self.keys[i].physical_pos;
            if p.col == pos.0 && p.row == pos.1 {
                assert(key_pos(self@.keys[i as int]) == pos);
                return true;
            }
            i = i + 1;
        }
        false
    }

    /// Whether one of the combo's keys is operated by `finger`.
    pub fn contains_finger(&self, finger: &FingerAssignment) -> (r: bool)
        ensures
            r == keys_have_finger(self@.keys, *finger),
    {
        let mut i: usize = 0;
        while i < self.keys.len()
            invariant
                i <= self.keys@.len(),
                forall|j: int| 0 <= j < i ==> key_finger(#[trigger] self@.keys[j]) != *finger,
            decreases self.keys@.len() - i,
        {
            if self.keys[i].physical_pos.finger == *finger {
                assert(key_finger(self@.keys[i as int]) == *finger);
                return true;
            }
            i = i + 1;
        }
        false
    }

    /// Whether `key` right before or after this combo is a same-finger bigram.
    pub fn is_key_sfb(&self, key: &Key) -> (r: bool)
        ensures
            r == combo_key_sfb(self@, key@),
    {
        if self.contains_physical_pos(key.physical_pos.pos()) {
            return false;
        }
        self.contains_finger(&key.physical_pos.finger)
    }

    /// The fingers that operate the combo, each once.
    pub fn get_fingers(&self) -> (r: Vec<FingerAssignment>)
        ensures
            r@.to_set() == fingers_of(self@.keys),
            r@.no_duplicates(),
    {
        let mut r: Vec<FingerAssignment> = Vec::new();
        let mut i: usize = 0;
        while i < self.keys.len()
            invariant
                i <= self.keys@.len(),
                r@.no_duplicates(),
                forall|k: int|
                    0 <= k < r@.len() ==> exists|j: int|
                        0 <= j < i && key_finger(#[trigger] self@.keys[j]) == #[trigger] r@[k],
                forall|j: int| 0 <= j < i ==> r@.contains(key_finger(#[trigger] self@.keys[j])),
            decreases self.keys@.len() - i,
        {
            let f = self.keys[i].physical_pos.finger;
            assert(key_finger(self@.keys[i as int]) == f);
            let ghost before = r@;
            if !vec_contains_finger(&r, &f) {
                r.push(f);
                assert(r@[r@.len() - 1] == f);
            }
            proof {
                assert forall|j: int| 0 <= j < i + 1 implies r@.contains(
                    key_finger(#[trigger] self@.keys[j]),
                ) by {
                    if j < i {
                        let k = choose|k: int|
                            0 <= k < before.len() && before[k] == key_finger(self@.keys[j]);
                        assert(r@[k] == before[k]);
                    }
                }
            }
            i = i + 1;
        }
        assert forall|f: FingerAssignment| r@.to_set().contains(f) <==> fingers_of(
            self@.keys,
        ).contains(f) by {
            if r@.to_set().contains(f) {
                let k = choose|k: int| 0 <= k < r@.len() && r@[k] == f;
                let j = choose|j: int|
                    0 <= j < i && key_finger(#[trigger] self@.keys[j]) == r@[k];
                assert(keys_have_finger(self@.keys, f));
            }
        }
        assert(r@.to_set() =~= fingers_of(self@.keys));
        r
    }

    /// The physical positions of the combo's keys, each once.
    pub fn get_positions(&self) -> (r: Vec<(usize, usize)>)
        ensures
            r@.to_set() == positions_of(self@.keys),
            r@.no_duplicates(),
    {
        let mut r: Vec<(usize, usize)> = Vec::new();
        let mut i: usize = 0;
        while i < self.keys.len()
            invariant
                i <= self.keys@.len(),
                r@.no_duplicates(),
                forall|k: int|
                    0 <= k < r@.len() ==> exists|j: int|
                        0 <= j < i && key_pos(#[trigger] self@.keys[j]) == #[trigger] r@[k],
                forall|j: int| 0 <= j < i ==> r@.contains(key_pos(#[trigger] self@.keys[j])),
            decreases self.keys@.len() - i,
        {
            let p = self.keys[i].physical_pos.pos();
            assert(key_pos(self@.keys[i as int]) == p);
            let ghost before = r@;
            if !vec_contains_pos(&r, p) {
                r.push(p);
                assert(r@[r@.len() - 1] == p);
            }
            proof {
                assert forall|j: int| 0 <= j < i + 1 implies r@.contains(
                    key_pos(#[trigger] self@.keys[j]),
                ) by {
                    if j < i {
                        let k = choose|k: int|
                            0 <= k < before.len() && before[k] == key_pos(self@.keys[j]);
                        assert(r@[k] == before[k]);
                    }
                }
            }
            i = i + 1;
        }
        assert forall|p: (usize, usize)| r@.to_set().contains(p) <==> positions_of(
            self@.keys,
        ).contains(p) by {
            if r@.to_set().contains(p) {
                let k = choose|k: int| 0 <= k < r@.len() && r@[k] == p;
                let j = choose|j: int| 0 <= j < i && key_pos(#[trigger] self@.keys[j]) == r@[k];
                assert(keys_have_pos(self@.keys, p));
            }
        }
        assert(r@.to_set() =~= positions_of(self@.keys));
        r
    }

    /// Whether `combo` right after this combo is a same-finger bigram.
    pub fn is_combo_sfb(&self, combo: &Combo) -> (r: bool)
        ensures
            r == combos_sfb(self@, combo@),
    {
        let mut i: usize = 0;
        while i < self.keys.len()
            invariant
                i <= self.keys@.len(),
                forall|a: int, b: int|
                    0 <= a < i && 0 <= b < combo@.keys.len() ==> key_pos(#[trigger] self@.keys[a])
                        != key_pos(#[trigger] combo@.keys[b]),
            decreases self.keys@.len() - i,
        {
            let p = self.keys[i].physical_pos.pos();
            if combo.contains_physical_pos(p) {
                assert(key_pos(self@.keys[i as int]) == p);
                return false;
            }
            assert(key_pos(self@.keys[i as int]) == p);
            i = i + 1;
        }
        let mut i: usize = 0;
        while i < self.keys.len()
            invariant
                i <= self.keys@.len(),
                forall|a: int, b: int|
                    0 <= a < self@.keys.len() && 0 <= b < combo@.keys.len() ==> key_pos(
                        #[trigger] self@.keys[a],
                    ) != key_pos(#[trigger] combo@.keys[b]),
                forall|a: int, b: int|
                    0 <= a < i && 0 <= b < combo@.keys.len() ==> key_finger(
                        #[trigger] self@.keys[a],
                    ) != key_finger(#[trigger] combo@.keys[b]),
            decreases self.keys@.len() - i,
        {
            let f = self.keys[i].physical_pos.finger;
            assert(key_finger(self@.keys[i as int]) == f);
            if combo.contains_finger(&f) {
                return true;
            }
            i = i + 1;
        }
        false
    }

    /// Whether the combo is two keys side by side in one row.
    pub fn is_horizontal_neighbour(&self) -> (r: bool)
        ensures
            r == (self@.keys.len() == 2 && self@.keys[0].physical_pos.row
                == self@.keys[1].physical_pos.row && (self@.keys[0].physical_pos.col
                - self@.keys[1].physical_pos.col == 1 || self@.keys[1].physical_pos.col
                - self@.keys[0].physical_pos.col == 1)),
    {
        if self.keys.len() != 2 {
            return false;
        }
        let a = &self.keys[0].physical_pos;
        let b = &self.keys[1].physical_pos;
        a.row == b.row && ((a.col > b.col && a.col - b.col == 1) || (b.col > a.col && b.col - a.col
            == 1))
    }

    /// Whether the combo is two keys one above the other in one column.
    pub fn is_vertical_neighbour(&self) -> (r: bool)
        ensures
            r == (self@.keys.len() == 2 && self@.keys[0].physical_pos.col
                == self@.keys[1].physical_pos.col && (self@.keys[0].physical_pos.row
                - self@.keys[1].physical_pos.row == 1 || self@.keys[1].physical_pos.row
                - self@.keys[0].physical_pos.row == 1)),
    {
        if self.keys.len() != 2 {
            return false;
        }
        let a = &self.keys[0].physical_pos;
        let b = &self.keys[1].physical_pos;
        a.col == b.col && ((a.row > b.row && a.row - b.row == 1) || (b.row > a.row && b.row - a.row
            == 1))
    }

    /// Whether the combo is three keys next to each other in one row, left to right.
    pub fn is_mid_triple(&self) -> (r: bool)
        ensures
            r == (self@.keys.len() == 3 && self@.keys[0].physical_pos.row
                == self@.keys[1].physical_pos.row && self@.keys[1].physical_pos.row
                == self@.keys[2].physical_pos.row && self@.keys[2].physical_pos.col
                - self@.keys[1].physical_pos.col == 1 && self@.keys[1].physical_pos.col
                - self@.keys[0].physical_pos.col == 1),
    {
        if self.keys.len() != 3 {
            return false;
        }
        let a = &self.keys[0].physical_pos;
        let b = &self.keys[1].physical_pos;
        let c = &self.keys[2].physical_pos;
        a.row == b.row && b.row == c.row && c.col > b.col && c.col - b.col == 1 && b.col > a.col
            && b.col - a.col == 1
    }

    /// A copy of this combo.
    pub fn duplicate(&self) -> (r: Combo)
        ensures
            r@ == self@,
    {
        Combo { id: self.id.clone(), output: self.output.clone(), keys: duplicate_keys(&self.keys) }
    }
}

/// Copies of `keys`.
pub fn duplicate_keys(keys: &Vec<Key>) -> (r: Vec<Key>)
    ensures
        keys_view(r@) == keys_view(keys@),
{
    let mut r: Vec<Key> = Vec::new();
    let mut i: usize = 0;
    while i < keys.len()
        invariant
            i <= keys@.len(),
            keys_view(r@) == keys_view(keys@).subrange(0, i as int),
        decreases keys@.len() - i,
    {
        let ghost before = r@;
        r.push(keys[i].duplicate());
        assert(keys_view(r@) =~= keys_view(before).push(keys@[i as int]@));
        i = i + 1;
        assert(keys_view(r@) =~= keys_view(keys@).subrange(0, i as int));
    }
    assert(keys_view(keys@).subrange(0, i as int) == keys_view(keys@));
    r
}

fn vec_contains_finger(v: &Vec<FingerAssignment>, f: &FingerAssignment) -> (r: bool)
    ensures
        r == v@.contains(*f),
{
    let mut i: usize = 0;
    while i < v.len()
        invariant
            i <= v@.len(),
            forall|j: int| 0 <= j < i ==> v@[j] != *f,
        decreases v@.len() - i,
    {
        if v[i] == *f {
            return true;
        }
        i = i + 1;
    }
    false
}

fn vec_contains_pos(v: &Vec<(usize, usize)>, p: (usize, usize)) -> (r: bool)
    ensures
        r == v@.contains(p),
{
    let mut i: usize = 0;
    while i < v.len()
        invariant
            i <= v@.len(),
            forall|j: int| 0 <= j < i ==> v@[j] != p,
        decreases v@.len() - i,
    {
        let q = v[i];
        if q.0 == p.0 && q.1 == p.1 {
            return true;
        }
        i = i + 1;
    }
    false
}

/// Places `k` into `v` after every key that does not sort after it.
fn insert_key_sorted(v: &mut Vec<Key>, k: Key)
    ensures
        keys_view(final(v)@) == insert_sorted(keys_view(old(v)@), k@),
{
    let ghost s = keys_view(v@);
    let mut p: usize = v.len();
    assert(s.subrange(0, p as int) == s);
    assert(s.subrange(p as int, s.len() as int) =~= Seq::<KeyView>::empty());
    while p > 0 && key_before_exec(&k, &v[p - 1])
        invariant
            s == keys_view(v@),
            p <= v@.len(),
            insert_sorted(s, k@) == insert_sorted(s.subrange(0, p as int), k@) + s.subrange(
                p as int,
                s.len() as int,
            ),
        decreases p,
    {
        proof {
            let t = s.subrange(0, p as int);
            assert(t.drop_last() == s.subrange(0, p - 1));
            assert(t.last() == s[p - 1]);
            assert(s.subrange(p - 1, s.len() as int) == seq![s[p - 1]] + s.subrange(
                p as int,
                s.len() as int,
            ));
        }
        p = p - 1;
    }
    proof {
        let t = s.subrange(0, p as int);
        if p == 0 {
            assert(insert_sorted(t, k@) == seq![k@]);
        } else {
            assert(insert_sorted(t, k@) == t.push(k@));
        }
        assert(s.insert(p as int, k@) == insert_sorted(t, k@) + s.subrange(p as int, s.len() as int));
    }
    v.insert(p, k);
    assert(keys_view(v@) == s.insert(p as int, k@));
}

fn key_before_exec(a: &Key, b: &Key) -> (r: bool)
    ensures
        r == key_sorts_before(a@, b@),
{
    a.physical_pos.col < b.physical_pos.col || (a.physical_pos.col == b.physical_pos.col
        && a.physical_pos.row < b.physical_pos.row)
}

} // verus!

verus! {

/// One layer of a keymap: its name and its keys in layout order.
#[derive(Debug)]
pub struct Layer {
    pub id: LayerId,
    pub keys: Vec<Key>,
}

pub struct LayerView {
    pub id: Seq<char>,
    pub keys: Seq<KeyView>,
}

impl View for Layer {
    type V = LayerView;

    open spec fn view(&self) -> LayerView {
        LayerView { id: self.id@, keys: keys_view(self.keys@) }
    }
}

pub open spec fn has_id(id: Seq<char>) -> spec_fn(KeyView) -> bool {
    |k: KeyView| k.id == id
}

pub open spec fn at_matrix(pos: (usize, usize)) -> spec_fn(KeyView) -> bool {
    |k: KeyView| k.matrix_pos == pos
}

pub open spec fn at_physical(pos: (usize, usize)) -> spec_fn(KeyView) -> bool {
    |k: KeyView| key_pos(k) == pos
}

impl Layer {
    /// The first key with the symbol `id`.
    pub fn find_key_by_id(&self, id: &str) -> (r: Option<&Key>)
        ensures
            key_ref_view(r) == found_key(self@.keys, has_id(id@)),
    {
        find_key(&self.keys, Ghost(has_id(id@)), KeySelector::Id(id))
    }

    /// The first key at matrix coordinate `pos`.
    pub fn find_key_by_matrix(&self, pos: (usize, usize)) -> (r: Option<&Key>)
        ensures
            key_ref_view(r) == found_key(self@.keys, at_matrix(pos)),
    {
        find_key(&self.keys, Ghost(at_matrix(pos)), KeySelector::Matrix(pos))
    }

    /// The first key at physical position `pos`, given as (column, row).
    pub fn find_key_by_physical_pos(&self, pos: (usize, usize)) -> (r: Option<&Key>)
        ensures
            key_ref_view(r) == found_key(self@.keys, at_physical(pos)),
    {
        find_key(&self.keys, Ghost(at_physical(pos)), KeySelector::Physical(pos))
    }

    /// Gives the first key with the symbol `key_id` the symbol `replacement` instead.
    pub fn replace_key_id(&mut self, key_id: &str, replacement: &str)
        ensures
            final(self)@.id == old(self)@.id,
            match first_match(old(self)@.keys, has_id(key_id@)) {
                Some(i) => final(self)@.keys == old(self)@.keys.update(
                    i,
                    KeyView { id: replacement@, ..old(self)@.keys[i] },
                ),
                None => final(self)@.keys == old(self)@.keys,
            },
    {
        let ghost kv = self@.keys;
        let mut i: usize = 0;
        while i < self.keys.len()
            invariant
                kv == self@.keys,
                kv == old(self)@.keys,
                self@.id == old(self)@.id,
                i <= kv.len(),
                first_match(kv, has_id(key_id@)) == first_match_from(kv, has_id(key_id@), i as int),
            decreases kv.len() - i,
        {
            assert(kv[i as int] == self.keys@[i as int]@);
            if str_eq(self.keys[i].id.0.as_str(), key_id) {
                self.keys[i].id = KeyId(replacement.to_owned());
                assert(self@.keys =~= kv.update(i as int, KeyView { id: replacement@, ..kv[i as int] }));
                return;
            }
            i = i + 1;
        }
    }
}

/// Placeholder symbols that let a key fall through to the layer below.
pub open spec fn is_fallback_id(id: Seq<char>) -> bool {
    id == "_______"@ || id == "xxxxxxx"@
}

/// Whether `id` is a placeholder that falls through to the layer below.
pub fn is_fallback_key(id: &KeyId) -> (r: bool)
    ensures
        r == is_fallback_id(id@),
{
    str_eq(id.0.as_str(), "_______") || str_eq(id.0.as_str(), "xxxxxxx")
}

/// A keymap: its layers, the base layer first, and its combos.
#[derive(Debug)]
pub struct Keymap {
    pub layers: Vec<Layer>,
    pub combos: Vec<Combo>,
}

pub struct KeymapView {
    pub layers: Seq<LayerView>,
    pub combos: Seq<ComboView>,
}

impl View for Keymap {
    type V = KeymapView;

    open spec fn view(&self) -> KeymapView {
        KeymapView {
            layers: self.layers@.map_values(|l: Layer| l@),
            combos: self.combos@.map_values(|c: Combo| c@),
        }
    }
}

/// The key that matrix coordinate `pos` means when layer `l` is the highest active one: the
/// first layer from `l` down to the base whose key there is not a placeholder.
pub open spec fn resolve_key(layers: Seq<LayerView>, l: int, pos: (usize, usize)) -> Option<KeyView>
    decreases l,
{
    if l < 0 || l >= layers.len() {
        None
    } else {
        let found = found_key(layers[l].keys, at_matrix(pos));
        if found is Some && !is_fallback_id(found.unwrap().id) {
            found
        } else if l == 0 {
            None
        } else {
            resolve_key(layers, l - 1, pos)
        }
    }
}

impl Keymap {
    /// The name of layer `i`, if there is such a layer.
    pub fn get_layer_id(&self, i: usize) -> (r: Option<LayerId>)
        ensures
            r is Some <==> i < self@.layers.len(),
            r matches Some(id) ==> id@ == self@.layers[i as int].id,
    {
        if i < self.layers.len() {
            Some(LayerId(self.layers[i].id.0.clone()))
        } else {
            None
        }
    }

    /// The key at matrix coordinate `pos` when `highest_layer` is the highest active layer,
    /// falling through placeholders towards the base layer.
    pub fn find_key_by_matrix(&self, highest_layer: usize, pos: (usize, usize)) -> (r: Option<&Key>)
        requires
            highest_layer < self@.layers.len(),
        ensures
            key_ref_view(r) == resolve_key(self@.layers, highest_layer as int, pos),
    {
        let mut curr_layer = highest_layer;
        loop
            invariant
                curr_layer <= highest_layer < self@.layers.len(),
                resolve_key(self@.layers, highest_layer as int, pos) == resolve_key(
                    self@.layers,
                    curr_layer as int,
                    pos,
                ),
            decreases curr_layer,
        {
            let layer = &self.layers[curr_layer];
            assert(self@.layers[curr_layer as int] == layer@);
            let found = layer.find_key_by_matrix(pos);
            if let Some(key) = found {
                if !is_fallback_key(&key.id) {
                    return Some(key);
                }
            }
            if curr_layer == 0 {
                return None;
            }
            curr_layer = curr_layer - 1;
        }
    }
}

} // verus!
