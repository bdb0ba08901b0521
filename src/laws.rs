use vstd::prelude::*;

use crate::keylog::EventView;
use crate::keymap::{fingers_of, key_finger, key_pos, positions_of, ComboView, KeyView};
use crate::physical::positions_are_sfb;
use crate::sfb::{events_sfb, joined_ids, new_sfb, sfb_id, sfb_of, sfb_series, FIRST_FIELD, SECOND_FIELD};
use crate::text::{pad_left, pad_right, spaces};

verus! {

/// Whether every event of `evs` is the press of a single key.
pub open spec fn all_single(evs: Seq<EventView>) -> bool {
    forall|i: int| 0 <= i < evs.len() ==> #[trigger] evs[i] is Single
}

/// The key of a single-key event.
pub open spec fn single_key(e: EventView) -> KeyView {
    match e {
        EventView::Single { key, .. } => key,
        EventView::Combo(c) => c.keys[0],
    }
}

/// Whether no two consecutive events of `evs` press keys at the same physical position.
pub open spec fn no_consecutive_repeat(evs: Seq<EventView>) -> bool {
    forall|i: int|
        0 <= i < evs.len() - 1 ==> key_pos(single_key(#[trigger] evs[i])) != key_pos(single_key(evs[i + 1]))
}

/// How many pairs of consecutive events of `evs` press keys of the same finger.
pub open spec fn same_finger_pairs(evs: Seq<EventView>) -> nat
    decreases evs.len(),
{
    if evs.len() < 2 {
        0
    } else {
        same_finger_pairs(evs.drop_last()) + if key_finger(single_key(evs[evs.len() - 2]))
            == key_finger(single_key(evs.last())) {
            1nat
        } else {
            0nat
        }
    }
}

/// In a log of single key presses in which no key directly repeats its position, the number of
/// same-finger bigrams is the number of consecutive pairs that share a finger.
#[verifier::rlimit(40)]
pub proof fn law_single_key_sfb_count(evs: Seq<EventView>)
    requires
        all_single(evs),
        no_consecutive_repeat(evs),
    ensures
        sfb_series(evs).len() == same_finger_pairs(evs),
    decreases evs.len(),
{
    if evs.len() >= 2 {
        let d = evs.drop_last();
        assert forall|i: int| 0 <= i < d.len() implies #[trigger] d[i] is Single by {
            assert(d[i] == evs[i]);
        }
        assert forall|i: int| 0 <= i < d.len() - 1 implies key_pos(single_key(#[trigger] d[i])) != key_pos(
            single_key(d[i + 1]),
        ) by {
            assert(d[i] == evs[i] && d[i + 1] == evs[i + 1]);
        }
        law_single_key_sfb_count(d);
        let a = evs[evs.len() - 2];
        let b = evs.last();
        assert(a is Single && b is Single);
        assert(key_pos(single_key(a)) != key_pos(single_key(b)));
        assert(events_sfb(a, b) == (key_finger(single_key(a)) == key_finger(single_key(b))));
        assert(sfb_series(evs).len() == sfb_series(d).len() + if events_sfb(a, b) {
            1nat
        } else {
            0nat
        });
    }
}

/// A single key pressed right after a single key at the same physical position is never a
/// same-finger bigram, whatever the fingers.
pub proof fn law_repeated_position_is_not_sfb(a: EventView, b: EventView)
    requires
        a is Single,
        b is Single,
        key_pos(single_key(a)) == key_pos(single_key(b)),
    ensures
        !events_sfb(a, b),
        new_sfb(a, b) is None,
{
}

/// Two combos whose keys sit at disjoint positions but share a finger form a same-finger bigram.
pub proof fn law_disjoint_combos_sharing_finger(a: ComboView, b: ComboView)
    requires
        positions_of(a.keys).disjoint(positions_of(b.keys)),
        !fingers_of(a.keys).disjoint(fingers_of(b.keys)),
    ensures
        events_sfb(EventView::Combo(a), EventView::Combo(b)),
{
    assert forall|i: int, j: int| 0 <= i < a.keys.len() && 0 <= j < b.keys.len() implies key_pos(
        #[trigger] a.keys[i],
    ) != key_pos(#[trigger] b.keys[j]) by {
        if key_pos(a.keys[i]) == key_pos(b.keys[j]) {
            assert(positions_of(a.keys).contains(key_pos(a.keys[i])));
            assert(positions_of(b.keys).contains(key_pos(a.keys[i])));
        }
    }
    let f = choose|f| fingers_of(a.keys).contains(f) && fingers_of(b.keys).contains(f);
    let i = choose|i: int| 0 <= i < a.keys.len() && key_finger(#[trigger] a.keys[i]) == f;
    let j = choose|j: int| 0 <= j < b.keys.len() && key_finger(#[trigger] b.keys[j]) == f;
    assert(key_finger(a.keys[i]) == key_finger(b.keys[j]));
}

/// Whether `s` is a non-empty symbol without spaces.
pub open spec fn is_plain_symbol(s: Seq<char>) -> bool {
    s.len() > 0 && forall|i: int| 0 <= i < s.len() ==> #[trigger] s[i] != ' '
}

proof fn lemma_id_layout(x: Seq<char>, y: Seq<char>)
    requires
        is_plain_symbol(x),
    ensures
        ({
            let s = pad_left(x, FIRST_FIELD as nat) + spaces(4) + pad_right(y, SECOND_FIELD as nat);
            let p = if x.len() < FIRST_FIELD {
                FIRST_FIELD - x.len()
            } else {
                0int
            };
            &&& forall|i: int| 0 <= i < p ==> s[i] == ' '
            &&& forall|i: int| 0 <= i < x.len() ==> s[p + i] == x[i]
            &&& s[p + x.len()] == ' '
            &&& s.len() > p + x.len()
        }),
{
    let s = pad_left(x, FIRST_FIELD as nat) + spaces(4) + pad_right(y, SECOND_FIELD as nat);
    let p = if x.len() < FIRST_FIELD {
        FIRST_FIELD - x.len()
    } else {
        0int
    };
    let l = pad_left(x, FIRST_FIELD as nat);
    assert(l.len() == p + x.len());
    assert forall|i: int| 0 <= i < p implies s[i] == ' ' by {
        assert(s[i] == l[i]);
    }
    assert forall|i: int| 0 <= i < x.len() implies s[p + i] == x[i] by {
        assert(s[p + i] == l[p + i]);
    }
    assert(s[p + x.len()] == spaces(4)[0]);
}

/// Swapping two consecutive single keys that form a same-finger bigram gives a bigram with a
/// different identity: the order of a bigram counts. The keys have distinct plain symbols.
pub proof fn law_order_matters(a: EventView, b: EventView)
    requires
        a is Single,
        b is Single,
        events_sfb(a, b),
        is_plain_symbol(single_key(a).id),
        is_plain_symbol(single_key(b).id),
        single_key(a).id != single_key(b).id,
    ensures
        events_sfb(b, a),
        sfb_id(sfb_of(a, b)) != sfb_id(sfb_of(b, a)),
{
    reveal(sfb_id);
    let x = single_key(a).id;
    let y = single_key(b).id;
    assert(joined_ids(seq![single_key(a)]) == x);
    assert(joined_ids(seq![single_key(b)]) == y);
    let s1 = pad_left(x, FIRST_FIELD as nat) + spaces(4) + pad_right(y, SECOND_FIELD as nat);
    let s2 = pad_left(y, FIRST_FIELD as nat) + spaces(4) + pad_right(x, SECOND_FIELD as nat);
    assert(sfb_id(sfb_of(a, b)) == s1);
    assert(sfb_id(sfb_of(b, a)) == s2);
    lemma_id_layout(x, y);
    lemma_id_layout(y, x);
    if s1 == s2 {
        let start_x = if x.len() < FIRST_FIELD {
            FIRST_FIELD - x.len()
        } else {
            0int
        };
        let start_y = if y.len() < FIRST_FIELD {
            FIRST_FIELD - y.len()
        } else {
            0int
        };
        if start_x < start_y {
            assert(s1[start_x + 0] == x[0]);
            assert(s2[start_x] == ' ');
        } else if start_y < start_x {
            assert(s2[start_y + 0] == y[0]);
            assert(s1[start_y] == ' ');
        } else if x.len() < y.len() {
            assert(s1[start_x + x.len()] == ' ');
            assert(s2[start_y + x.len()] == y[x.len() as int]);
        } else if y.len() < x.len() {
            assert(s2[start_y + y.len()] == ' ');
            assert(s1[start_x + y.len()] == x[y.len() as int]);
        } else {
            assert forall|i: int| 0 <= i < x.len() implies x[i] == y[i] by {
                assert(s1[start_x + i] == x[i]);
                assert(s2[start_y + i] == y[i]);
            }
            assert(x == y);
        }
    }
}

} // verus!
