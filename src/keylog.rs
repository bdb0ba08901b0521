use vstd::prelude::*;

use crate::input::InputInfo;
use crate::keymap::{resolve_key, Combo, ComboView, Key, KeyView, Keymap, KeymapView, LayerId};
use crate::text::{decimal_value, digits_of, parse_usize, parses_as_usize, str_eq};

verus! {

/// One row of a keystroke log, as the firmware writes it.
#[derive(Clone, Debug)]
pub struct RawKeylogEntry {
    /// A hexadecimal keycode, or `COMBO` for a combo activation.
    pub keycode: String,
    pub row: String,
    pub col: String,
    pub highest_layer: usize,
    pub pressed: usize,
    pub mods: String,
    pub oneshot_mods: String,
    /// The tap count, or for a combo activation the index of the combo.
    pub tap_count: usize,
}

/// What a log record refers to that the layout does not have.
#[derive(Clone, Copy, PartialEq, Eq, Structural, Debug)]
pub enum LayoutMismatch {
    /// No combo has this index.
    ComboIndex { index: usize },
    /// No layer has this index.
    Layer { index: usize },
    /// No layer from the active one down to the base has a key at this matrix coordinate.
    MatrixPosition { row: usize, col: usize },
}

/// Why a keystroke log cannot be read against a layout.
#[derive(Clone, Copy, PartialEq, Eq, Structural, Debug)]
pub enum KeylogError {
    /// The record at this index has a row or column that is not an unsigned number.
    MalformedRecord { record: usize },
    /// The record at this index refers to something the layout does not have.
    Mismatch { record: usize, mismatch: LayoutMismatch },
}

/// What to do with a record that refers to something the layout does not have.
#[derive(Clone, Copy, PartialEq, Eq, Structural, Debug)]
pub enum MismatchPolicy {
    /// Fail the whole log.
    Fail,
    /// Leave the record out.
    Skip,
}

/// A logical event: a combo activation or the press of a single key.
#[derive(Debug)]
pub enum KeylogEntry<'a> {
    Combo(&'a Combo),
    Single { key: &'a Key, keycode: String, highest_layer: LayerId, pressed: bool, tap_count: usize },
}

pub enum EventView {
    Combo(ComboView),
    Single {
        key: KeyView,
        keycode: Seq<char>,
        highest_layer: Seq<char>,
        pressed: bool,
        tap_count: usize,
    },
}

impl<'a> View for KeylogEntry<'a> {
    type V = EventView;

    open spec fn view(&self) -> EventView {
        match self {
            KeylogEntry::Combo(c) => EventView::Combo(c@),
            KeylogEntry::Single { key, keycode, highest_layer, pressed, tap_count } => EventView::Single {
                key: key@,
                keycode: keycode@,
                highest_layer: highest_layer@,
                pressed: *pressed,
                tap_count: *tap_count,
            },
        }
    }
}

pub open spec fn events_view<'a>(v: Seq<KeylogEntry<'a>>) -> Seq<EventView> {
    v.map_values(|e: KeylogEntry<'a>| e@)
}

/// What becomes of one log record.
pub enum RecordOutcome {
    /// It carries nothing to count: a key release, or the matrix row of a combo.
    Skip,
    /// It is this logical event.
    Emit(EventView),
    /// It cannot be read against the layout.
    Fail(KeylogError),
}

/// The fate of record number `index` when read against `km`.
pub open spec fn record_outcome(r: RawKeylogEntry, km: KeymapView, index: int) -> RecordOutcome {
    if r.keycode@ == "COMBO"@ {
        if r.tap_count < km.combos.len() {
            RecordOutcome::Emit(EventView::Combo(km.combos[r.tap_count as int]))
        } else {
            RecordOutcome::Fail(
                KeylogError::Mismatch {
                    record: index as usize,
                    mismatch: LayoutMismatch::ComboIndex { index: r.tap_count },
                },
            )
        }
    } else if r.pressed == 0 {
        RecordOutcome::Skip
    } else if r.row@ == "NA"@ {
        RecordOutcome::Skip
    } else if !parses_as_usize(r.row@) || !parses_as_usize(r.col@) {
        RecordOutcome::Fail(KeylogError::MalformedRecord { record: index as usize })
    } else {
        let row = decimal_value(digits_of(r.row@)) as usize;
        let col = decimal_value(digits_of(r.col@)) as usize;
        if row == 254 && col == 254 {
            RecordOutcome::Skip
        } else if r.highest_layer >= km.layers.len() {
            RecordOutcome::Fail(
                KeylogError::Mismatch {
                    record: index as usize,
                    mismatch: LayoutMismatch::Layer { index: r.highest_layer },
                },
            )
        } else {
            match resolve_key(km.layers, r.highest_layer as int, (row, col)) {
                None => RecordOutcome::Fail(
                    KeylogError::Mismatch {
                        record: index as usize,
                        mismatch: LayoutMismatch::MatrixPosition { row, col },
                    },
                ),
                Some(k) => RecordOutcome::Emit(
                    EventView::Single {
                        key: k,
                        keycode: r.keycode@,
                        highest_layer: km.layers[r.highest_layer as int].id,
                        pressed: true,
                        tap_count: r.tap_count,
                    },
                ),
            }
        }
    }
}

/// The logical events of the first `n` records, in log order, or the first failure.
pub open spec fn resolve_upto(
    raw: Seq<RawKeylogEntry>,
    km: KeymapView,
    policy: MismatchPolicy,
    n: int,
) -> Result<Seq<EventView>, KeylogError>
    decreases n,
{
    if n <= 0 {
        Ok(seq![])
    } else {
        match resolve_upto(raw, km, policy, n - 1) {
            Err(x) => Err(x),
            Ok(evs) => match record_outcome(raw[n - 1], km, n - 1) {
                RecordOutcome::Skip => Ok(evs),
                RecordOutcome::Emit(e) => Ok(evs.push(e)),
                RecordOutcome::Fail(x) => if policy == MismatchPolicy::Fail
                    || x is MalformedRecord {
                    Err(x)
                } else {
                    Ok(evs)
                },
            },
        }
    }
}

/// The logical events of a log, in log order, or the first record that fails.
pub open spec fn resolve_log(raw: Seq<RawKeylogEntry>, km: KeymapView, policy: MismatchPolicy) -> Result<
    Seq<EventView>,
    KeylogError,
> {
    resolve_upto(raw, km, policy, raw.len() as int)
}

proof fn lemma_resolve_error_stays(
    raw: Seq<RawKeylogEntry>,
    km: KeymapView,
    policy: MismatchPolicy,
    m: int,
    n: int,
)
    requires
        0 <= m <= n,
        resolve_upto(raw, km, policy, m) is Err,
    ensures
        resolve_upto(raw, km, policy, n) == resolve_upto(raw, km, policy, m),
    decreases n - m,
{
    if m < n {
        lemma_resolve_error_stays(raw, km, policy, m, n - 1);
    }
}

proof fn lemma_resolve_len(raw: Seq<RawKeylogEntry>, km: KeymapView, policy: MismatchPolicy, n: int)
    requires
        0 <= n,
    ensures
        resolve_upto(raw, km, policy, n) matches Ok(evs) ==> evs.len() <= n,
    decreases n,
{
    if n > 0 {
        lemma_resolve_len(raw, km, policy, n - 1);
    }
}

/// How one record reads against `keymap`.
fn record_event<'a>(entry: &RawKeylogEntry, keymap: &'a Keymap, index: usize) -> (r: Result<
    Option<KeylogEntry<'a>>,
    KeylogError,
>)
    ensures
        match record_outcome(*entry, keymap@, index as int) {
            RecordOutcome::Skip => r == Ok::<Option<KeylogEntry<'a>>, KeylogError>(None),
            RecordOutcome::Emit(e) => r matches Ok(Some(x)) && x@ == e,
            RecordOutcome::Fail(x) => r == Err::<Option<KeylogEntry<'a>>, KeylogError>(x),
        },
{
    if str_eq(entry.keycode.as_str(), "COMBO") {
        if entry.tap_count < keymap.combos.len() {
            let combo = &keymap.combos[entry.tap_count];
            assert(keymap@.combos[entry.tap_count as int] == combo@);
            return Ok(Some(KeylogEntry::Combo(combo)));
        }
        return Err(
            KeylogError::Mismatch {
                record: index,
                mismatch: LayoutMismatch::ComboIndex { index: entry.tap_count },
            },
        );
    }
    if entry.pressed == 0 {
        return Ok(None);
    }
    if str_eq(entry.row.as_str(), "NA") {
        return Ok(None);
    }
    let row = parse_usize(entry.row.as_str());
    let col = parse_usize(entry.col.as_str());
    let (row, col) = match (row, col) {
        (Some(row), Some(col)) => (row, col),
        _ => {
            return Err(KeylogError::MalformedRecord { record: index });
        },
    };
    if row == 254 && col == 254 {
        return Ok(None);
    }
    if entry.highest_layer >= keymap.layers.len() {
        return Err(
            KeylogError::Mismatch {
                record: index,
                mismatch: LayoutMismatch::Layer { index: entry.highest_layer },
            },
        );
    }
    let key = match keymap.find_key_by_matrix(entry.highest_layer, (row, col)) {
        Some(key) => key,
        None => {
            return Err(
                KeylogError::Mismatch {
                    record: index,
                    mismatch: LayoutMismatch::MatrixPosition { row, col },
                },
            );
        },
    };
    let highest_layer = LayerId(keymap.layers[entry.highest_layer].id.0.clone());
    assert(keymap@.layers[entry.highest_layer as int] == keymap.layers@[entry.highest_layer as int]@);
    Ok(
        Some(
            KeylogEntry::Single {
                key,
                keycode: entry.keycode.clone(),
                highest_layer,
                pressed: true,
                tap_count: entry.tap_count,
            },
        ),
    )
}

/// Reads a keystroke log against `keymap`: key releases and the matrix rows that accompany
/// combos are dropped, each other record becomes one logical event, in log order.
pub fn resolve_entries<'a>(entries: &[RawKeylogEntry], keymap: &'a Keymap, policy: MismatchPolicy) -> (r:
    Result<Vec<KeylogEntry<'a>>, KeylogError>)
    ensures
        match resolve_log(entries@, keymap@, policy) {
            Ok(evs) => r matches Ok(v) && events_view(v@) == evs,
            Err(x) => r == Err::<Vec<KeylogEntry<'a>>, KeylogError>(x),
        },
{
    let mut res: Vec<KeylogEntry<'a>> = Vec::new();
    let mut i: usize = 0;
    while i < entries.len()
        invariant
            i <= entries@.len(),
            resolve_upto(entries@, keymap@, policy, i as int) matches Ok(evs) && events_view(res@)
                == evs,
        decreases entries@.len() - i,
    {
        let ghost before = res@;
        match record_event(&entries[i], keymap, i) {
            Ok(Some(e)) => {
                res.push(e);
                assert(events_view(res@) =~= events_view(before).push(e@));
            },
            Ok(None) => {},
            Err(x) => {
                if policy == MismatchPolicy::Fail || matches!(x, KeylogError::MalformedRecord { .. }) {
                    proof {
                        lemma_resolve_error_stays(
                            entries@,
                            keymap@,
                            policy,
                            i + 1,
                            entries@.len() as int,
                        );
                    }
                    return Err(x);
                }
            },
        }
        i = i + 1;
    }
    Ok(res)
}

/// Reads a keystroke log against the keymap of `info`; a record that refers to something the
/// keymap does not have fails the whole log.
pub fn convert_keylog_entries<'a>(entries: &[RawKeylogEntry], info: &'a InputInfo) -> (r: Result<
    Vec<KeylogEntry<'a>>,
    KeylogError,
>)
    ensures
        match resolve_log(entries@, info.keymap@, MismatchPolicy::Fail) {
            Ok(evs) => r matches Ok(v) && events_view(v@) == evs,
            Err(x) => r == Err::<Vec<KeylogEntry<'a>>, KeylogError>(x),
        },
{
    resolve_entries(entries, &info.keymap, MismatchPolicy::Fail)
}

/// Why the fields of a log row do not make a record.
#[derive(Clone, Copy, PartialEq, Eq, Structural, Debug)]
pub enum FieldError {
    /// A row has another number of fields than eight.
    FieldCount { found: usize },
    /// The field at this index is not an unsigned number.
    NotANumber { field: usize },
}

/// The record that the eight fields of a log row hold, or why they hold none.
pub open spec fn record_of_fields(f: Seq<Seq<char>>) -> Result<(usize, usize, usize), FieldError> {
    if f.len() != 8 {
        Err(FieldError::FieldCount { found: f.len() as usize })
    } else if !parses_as_usize(f[3]) {
        Err(FieldError::NotANumber { field: 3 })
    } else if !parses_as_usize(f[4]) {
        Err(FieldError::NotANumber { field: 4 })
    } else if !parses_as_usize(f[7]) {
        Err(FieldError::NotANumber { field: 7 })
    } else {
        Ok(
            (
                decimal_value(digits_of(f[3])) as usize,
                decimal_value(digits_of(f[4])) as usize,
                decimal_value(digits_of(f[7])) as usize,
            ),
        )
    }
}

impl RawKeylogEntry {
    /// The record that the fields of a log row hold: keycode, row, column, highest layer,
    /// pressed, modifiers, one-shot modifiers and tap count, in that order.
    pub fn from_fields(fields: Vec<String>) -> (r: Result<RawKeylogEntry, FieldError>)
        ensures
            match record_of_fields(fields@.map_values(|s: String| s@)) {
                Err(e) => r == Err::<RawKeylogEntry, FieldError>(e),
                Ok((layer, pressed, tap)) => r matches Ok(x) && x.keycode@ == fields@[0]@ && x.row@
                    == fields@[1]@ && x.col@ == fields@[2]@ && x.highest_layer == layer && x.pressed
                    == pressed && x.mods@ == fields@[5]@ && x.oneshot_mods@ == fields@[6]@ && x.tap_count
                    == tap,
            },
    {
        let ghost fv = fields@.map_values(|s: String| s@);
        if fields.len() != 8 {
            return Err(FieldError::FieldCount { found: fields.len() });
        }
        assert(fv[3] == fields@[3]@ && fv[4] == fields@[4]@ && fv[7] == fields@[7]@);
        let highest_layer = match parse_usize(fields[3].as_str()) {
            Some(v) => v,
            None => {
                return Err(FieldError::NotANumber { field: 3 });
            },
        };
        let pressed = match parse_usize(fields[4].as_str()) {
            Some(v) => v,
            None => {
                return Err(FieldError::NotANumber { field: 4 });
            },
        };
        let tap_count = match parse_usize(fields[7].as_str()) {
            Some(v) => v,
            None => {
                return Err(FieldError::NotANumber { field: 7 });
            },
        };
        Ok(
            RawKeylogEntry {
                keycode: fields[0].clone(),
                row: fields[1].clone(),
                col: fields[2].clone(),
                highest_layer,
                pressed,
                mods: fields[5].clone(),
                oneshot_mods: fields[6].clone(),
                tap_count,
            },
        )
    }
}

} // verus!
