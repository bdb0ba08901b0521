use keylog_stats::finger::{Finger, FingerAssignment, MatrixHalf};
use keylog_stats::input::InputInfo;
use keylog_stats::keyboard::{KeySpec as MatrixKey, KeyboardSpec, LayoutSpec, NamedLayout};
use keylog_stats::keylog::{
    convert_keylog_entries, FieldError, KeylogEntry, KeylogError, LayoutMismatch, MismatchPolicy,
    RawKeylogEntry,
};
use keylog_stats::keymap::{Combo, Key, KeyId, Keymap};
use keylog_stats::physical::{PhysicalLayout, PhysicalPos};
use keylog_stats::render_opts::{RenderOpts, RenderOutputs};
use keylog_stats::sfb::Sfb;
use keylog_stats::stats::{count_for, KeylogStats};

const KEYMAP_C: &str = r#"
// clang-format off
const uint16_t PROGMEM keymaps[][MATRIX_ROWS][MATRIX_COLS] = {
    [_BASE] = LAYOUT(
      SE_J,    SE_C,    SE_Y,    SE_F,    SE_P,         SE_X,    SE_W,    SE_O,    SE_U,    SE_DOT,
      SE_R,    SE_S,    SE_T,    SE_H,    SE_K,         SE_M,    SE_N,    SE_A,    SE_I,    REPEAT,
      SE_COMM, SE_V,    SE_G,    SE_D,    SE_B,         SE_SLSH, SE_L,    SE_LPRN, SE_RPRN, SE_UNDS,
               xxxxxxx, xxxxxxx,
                                 FUN,     MT_SPC,       SE_E
    ),
    [_NUM]  = LAYOUT(
      SE_J,    SE_PLUS, SE_ASTR, SE_EXLM, SE_P,         SE_X,    _______, AT_U,    REPEAT,  _______,
      SE_6,    SE_4,    SE_0,    SE_2,    SE_K,         _______, SE_3,    SE_1,    SE_5,    SE_7,
      SE_COMM, _______, NUM_G,   SE_8,    _______,      SE_SLSH, SE_9,    SE_LPRN, SE_RPRN, SE_UNDS,
               _______, _______,
                                 _______, _______,      _______
    )
};
        "#;

const COMBOS_DEF: &str = r##"
// Comment
COMB(num,               NUMWORD,        MT_SPC, SE_E)

SUBS(https,             "https://",     MT_SPC, SE_SLSH)
COMB(comb_boot_r,       QK_BOOT,        SE_E, SE_L, SE_LPRN, SE_RPRN, SE_UNDS)

COMB(escape_sym,        ESC_SYM,        SE_T, SE_H)
SUBS(lt_eq,             "<=",           SE_F, SE_H)

SUBS(el_str_int,        "#{}"SS_TAP(X_LEFT),  SE_X, SE_W)
COMB(coln_sym,          COLN_SYM,       SE_N, SE_A)
        "##;

const MATRIX: [(usize, usize); 35] = [
    (1, 0), (0, 1), (0, 2), (0, 3), (0, 4), (4, 0), (4, 1), (4, 2), (4, 3), (4, 4),
    (2, 0), (1, 1), (1, 2), (1, 3), (1, 4), (5, 0), (5, 1), (5, 2), (5, 3), (5, 4),
    (3, 0), (2, 1), (2, 2), (2, 3), (2, 4), (6, 0), (6, 1), (6, 2), (6, 3), (6, 4),
    (3, 1), (3, 2),
    (3, 3), (3, 4), (7, 0),
];

fn lines(v: &[&str]) -> Vec<String> {
    v.iter().map(|s| s.to_string()).collect()
}

fn physical_layout() -> PhysicalLayout {
    PhysicalLayout::new(
        lines(&["54446    64445", "21005    50012", "64436    63446", " 77", "   80    0"]),
        lines(&["11233    33211", "01233    33210", "01233    33210", " 12", "   44    4"]),
    )
    .unwrap()
}

fn outputs() -> RenderOutputs {
    RenderOutputs {
        effort: false,
        layers: true,
        legend: true,
        combos: true,
        combo_keys_with_separate_imgs: vec![],
        combo_highlight_groups: vec![],
        combo_background_layer_class: "combo_background".to_string(),
        active_class_in_separate_layer: "active_layer".to_string(),
    }
}

fn render_opts() -> RenderOpts {
    RenderOpts::new("id", vec![], vec![], vec![], physical_layout(), outputs())
}

fn keyboard() -> KeyboardSpec {
    KeyboardSpec {
        layouts: vec![NamedLayout {
            name: "LAYOUT".to_string(),
            spec: LayoutSpec { layout: MATRIX.iter().map(|&matrix| MatrixKey { matrix }).collect() },
        }],
        layout_aliases: None,
    }
}

fn info() -> InputInfo {
    let render_opts = render_opts();
    let keymap = Keymap::parse_from_source(KEYMAP_C, &keyboard(), COMBOS_DEF, &render_opts).unwrap();
    InputInfo { keymap, render_opts }
}

fn raw(line: &str) -> RawKeylogEntry {
    RawKeylogEntry::from_fields(line.split(',').map(String::from).collect()).unwrap()
}

fn raws(rows: &[&str]) -> Vec<RawKeylogEntry> {
    rows.iter().map(|r| raw(r)).collect()
}

fn fa(finger: Finger, half: MatrixHalf) -> FingerAssignment {
    FingerAssignment { finger, half }
}

const REFERENCE_LOG: [&str; 17] = [
    "0x0001,3,4,0,1,0x00,0x00,1",
    "COMBO,NA,NA,0,0,0,0,0",
    "0x0001,1,0,0,1,0x00,0x00,1",
    "0x0001,0,1,0,1,0x00,0x00,1",
    "0x0001,1,1,0,1,0x00,0x00,1",
    "0x0001,1,1,0,1,0x00,0x00,1",
    "0x0001,1,1,0,1,0x00,0x00,1",
    "0x0001,0,1,0,1,0x00,0x00,1",
    "0x0001,1,1,0,1,0x00,0x00,1",
    "0x0001,1,2,0,1,0x00,0x00,1",
    "COMBO,NA,NA,0,0,0,0,3",
    "COMBO,NA,NA,0,0,0,0,4",
    "0x0001,6,1,0,1,0x00,0x00,1",
    "0x0001,4,1,0,1,0x00,0x00,1",
    "COMBO,NA,NA,0,0,0,0,6",
    "COMBO,NA,NA,0,0,0,0,2",
    "COMBO,NA,NA,0,0,0,0,6",
];

#[test]
fn test_sfb_stats() {
    let info = info();
    let stats = KeylogStats::from_entries(&info, raws(&REFERENCE_LOG)).unwrap();

    assert_eq!(stats.total_sfb_events, 8);
    assert_eq!(stats.total_events, 17);
    assert_eq!(stats.total_key_presses, 26);

    assert_eq!(stats.finger_frequency_of(&fa(Finger::Pinky, MatrixHalf::Left)), None);
    assert_eq!(stats.finger_frequency_of(&fa(Finger::Ring, MatrixHalf::Left)), Some(7));
    assert_eq!(stats.finger_frequency_of(&fa(Finger::Index, MatrixHalf::Right)), Some(5));

    let sfb_frequency_by_finger = stats.sfb_frequency_by_finger(true);
    assert_eq!(count_for(&sfb_frequency_by_finger, &fa(Finger::Pinky, MatrixHalf::Left)), None);
    assert_eq!(count_for(&sfb_frequency_by_finger, &fa(Finger::Ring, MatrixHalf::Left)), Some(4));
    assert_eq!(count_for(&sfb_frequency_by_finger, &fa(Finger::Index, MatrixHalf::Right)), Some(4));
}

fn key(id: &str, col: usize, row: usize, finger: Finger, half: MatrixHalf, effort: u32, matrix: (usize, usize)) -> Key {
    Key {
        id: KeyId(id.into()),
        physical_pos: PhysicalPos { col, row, finger: fa(finger, half), effort },
        matrix_pos: matrix,
    }
}

#[test]
fn test_is_sfb() {
    let combo_a = Combo {
        id: "comb_boot_r".into(),
        output: "QK_BOOT".into(),
        keys: vec![
            key("SE_E", 4, 4, Finger::Thumb, MatrixHalf::Right, 0, (7, 0)),
            key("SE_L", 6, 2, Finger::Index, MatrixHalf::Right, 3, (6, 1)),
            key("SE_LPRN", 7, 2, Finger::Middle, MatrixHalf::Right, 4, (6, 2)),
            key("SE_RPRN", 8, 2, Finger::Ring, MatrixHalf::Right, 4, (6, 3)),
            key("SE_UNDS", 9, 2, Finger::Pinky, MatrixHalf::Right, 6, (6, 4)),
        ],
    };
    let a = KeylogEntry::Combo(&combo_a);

    let combo_b = Combo {
        id: "combo_coln".into(),
        output: "SE_COLN".into(),
        keys: vec![
            key("SE_R", 0, 1, Finger::Pinky, MatrixHalf::Left, 2, (2, 0)),
            key("SE_M", 0, 1, Finger::Index, MatrixHalf::Right, 5, (5, 0)),
        ],
    };
    let b = KeylogEntry::Combo(&combo_b);

    assert!(a.is_entry_sfb(&b));
}

#[test]
fn combos_sharing_position_are_no_sfb() {
    let combo_a = Combo {
        id: "a".into(),
        output: "A".into(),
        keys: vec![key("SE_T", 2, 1, Finger::Middle, MatrixHalf::Left, 0, (1, 2)), key("SE_H", 3, 1, Finger::Index, MatrixHalf::Left, 0, (1, 3))],
    };
    let combo_b = Combo {
        id: "b".into(),
        output: "B".into(),
        keys: vec![key("SE_F", 3, 0, Finger::Index, MatrixHalf::Left, 0, (0, 3)), key("SE_H", 3, 1, Finger::Index, MatrixHalf::Left, 0, (1, 3))],
    };
    assert!(!KeylogEntry::Combo(&combo_a).is_entry_sfb(&KeylogEntry::Combo(&combo_b)));
    assert!(combo_a.is_horizontal_neighbour());
    assert!(combo_b.is_vertical_neighbour());
}

#[test]
fn single_keys_count_same_finger_pairs() {
    // J, C, S are ring keys at three places; T is a middle key.
    let info = info();
    let log = raws(&[
        "0x0001,1,0,0,1,0x00,0x00,1",
        "0x0001,0,1,0,1,0x00,0x00,1",
        "0x0001,1,1,0,1,0x00,0x00,1",
        "0x0001,1,2,0,1,0x00,0x00,1",
        "0x0001,1,1,0,1,0x00,0x00,1",
    ]);
    let stats = KeylogStats::from_entries(&info, log).unwrap();
    assert_eq!(stats.total_events, 5);
    assert_eq!(stats.total_sfb_events, 2);
}

#[test]
fn total_key_presses_is_sum_of_finger_counts() {
    let info = info();
    let stats = KeylogStats::from_entries(&info, raws(&REFERENCE_LOG)).unwrap();
    let sum: u64 = stats.finger_frequency.iter().map(|f| f.count).sum();
    assert_eq!(sum, stats.total_key_presses);
    assert_eq!(stats.total_key_presses_left + stats.total_key_presses_right, 26);
    assert_eq!(stats.total_key_presses_left, 14);
    let ranks: Vec<usize> = stats.finger_frequency.iter().map(|f| f.finger.rank()).collect();
    let mut sorted = ranks.clone();
    sorted.sort();
    assert_eq!(ranks, sorted);
}

#[test]
fn top_sfbs_without_combos_has_only_single_keys() {
    let info = info();
    let stats = KeylogStats::from_entries(&info, raws(&REFERENCE_LOG)).unwrap();
    let top = stats.top_sfbs(10, false);
    assert_eq!(top.len(), 4);
    assert!(top.iter().all(|s| !s.sfb.has_combo()));
    assert_eq!(top[0].presses, 2);
    assert_eq!(top[0].sfb.id(), format!("{:>22}    {:<20}", "SE_C", "SE_S"));
    assert!(top.windows(2).all(|w| w[0].presses >= w[1].presses));
    let all = stats.top_sfbs(10, true);
    assert_eq!(all.len(), stats.sfbs_by_id.len());
    assert!(all.iter().any(|s| s.sfb.has_combo()));
    assert_eq!(stats.top_sfbs(2, true).len(), 2);
    let presses: u64 = stats.sfbs_by_id.iter().map(|s| s.presses).sum();
    assert_eq!(presses, stats.total_sfb_events);
    assert_eq!(stats.sfb_presses(true), 8);
    assert_eq!(stats.sfb_presses(false), 5);
    let without = stats.sfb_frequency_by_finger(false);
    assert_eq!(count_for(&without, &fa(Finger::Ring, MatrixHalf::Left)), Some(4));
    assert_eq!(count_for(&without, &fa(Finger::Index, MatrixHalf::Right)), Some(1));
    assert_eq!(count_for(&without, &fa(Finger::Thumb, MatrixHalf::Right)), Some(0));
}

#[test]
fn reversed_pair_has_another_identity() {
    let info = info();
    let entries = convert_keylog_entries(
        &raws(&["0x0001,1,0,0,1,0x00,0x00,1", "0x0001,0,1,0,1,0x00,0x00,1"]),
        &info,
    )
    .unwrap();
    let forward = Sfb::new_if_sfb(&entries[0], &entries[1]).unwrap();
    let backward = Sfb::new_if_sfb(&entries[1], &entries[0]).unwrap();
    assert_eq!(forward.id(), format!("{:>22}    {:<20}", "SE_J", "SE_C"));
    assert_eq!(backward.id(), format!("{:>22}    {:<20}", "SE_C", "SE_J"));
    assert_ne!(forward.id(), backward.id());
    assert_eq!(forward.first_ids_to_string(), "SE_J");
    assert_eq!(forward.second_ids_to_string(), "SE_C");
}

#[test]
fn repeated_position_is_no_sfb() {
    let info = info();
    let entries = convert_keylog_entries(
        &raws(&["0x0001,1,1,0,1,0x00,0x00,1", "0x0001,1,1,0,1,0x00,0x00,1"]),
        &info,
    )
    .unwrap();
    assert!(!entries[0].is_entry_sfb(&entries[1]));
    assert!(Sfb::new_if_sfb(&entries[0], &entries[1]).is_none());
}

#[test]
fn combo_sfb_joins_ids_and_fingers() {
    let info = info();
    let entries = convert_keylog_entries(
        &raws(&["COMBO,NA,NA,0,0,0,0,6", "COMBO,NA,NA,0,0,0,0,2"]),
        &info,
    )
    .unwrap();
    let sfb = Sfb::new_if_sfb(&entries[0], &entries[1]).unwrap();
    assert!(sfb.has_combo());
    assert_eq!(sfb.first_ids_to_string(), "SE_N,SE_A");
    assert_eq!(sfb.second_ids_to_string(), "SE_E,SE_L,SE_LPRN,SE_RPRN,SE_UNDS");
    assert_eq!(sfb.get_fingers().len(), 5);
}

#[test]
fn records_that_carry_nothing_are_skipped() {
    let info = info();
    let entries = convert_keylog_entries(
        &raws(&[
            "0x0001,1,0,0,0,0x00,0x00,1",
            "0x0001,NA,NA,0,1,0x00,0x00,1",
            "0x0001,254,254,0,1,0x00,0x00,1",
            "0x0001,1,0,0,1,0x00,0x00,1",
        ]),
        &info,
    )
    .unwrap();
    assert_eq!(entries.len(), 1);
}

#[test]
fn layer_falls_through_placeholders() {
    let info = info();
    let keymap = &info.keymap;
    assert_eq!(keymap.find_key_by_matrix(1, (4, 1)).unwrap().id.0, "SE_W");
    assert_eq!(keymap.find_key_by_matrix(1, (0, 1)).unwrap().id.0, "SE_PLUS");
    assert!(keymap.find_key_by_matrix(1, (3, 1)).is_none());
    assert_eq!(keymap.get_layer_id(1).unwrap().0, "_NUM");
    assert!(keymap.get_layer_id(2).is_none());
}

#[test]
fn mismatches_fail_the_log() {
    let info = info();
    let err = |rows: &[&str]| KeylogStats::from_entries(&info, raws(rows)).unwrap_err();
    assert_eq!(
        err(&["0x0001,1,0,0,1,0x00,0x00,1", "COMBO,NA,NA,0,0,0,0,99"]),
        KeylogError::Mismatch { record: 1, mismatch: LayoutMismatch::ComboIndex { index: 99 } }
    );
    assert_eq!(
        err(&["0x0001,1,0,5,1,0x00,0x00,1"]),
        KeylogError::Mismatch { record: 0, mismatch: LayoutMismatch::Layer { index: 5 } }
    );
    assert_eq!(
        err(&["0x0001,3,1,1,1,0x00,0x00,1"]),
        KeylogError::Mismatch { record: 0, mismatch: LayoutMismatch::MatrixPosition { row: 3, col: 1 } }
    );
    assert_eq!(err(&["0x0001,x,1,0,1,0x00,0x00,1"]), KeylogError::MalformedRecord { record: 0 });
}

#[test]
fn skip_policy_leaves_mismatches_out() {
    let info = info();
    let log = raws(&["0x0001,1,0,0,1,0x00,0x00,1", "COMBO,NA,NA,0,0,0,0,99", "0x0001,0,1,0,1,0x00,0x00,1"]);
    let stats = KeylogStats::from_entries_with(&info.keymap, log, MismatchPolicy::Skip).unwrap();
    assert_eq!(stats.total_events, 2);
    assert_eq!(stats.total_sfb_events, 1);
    let bad = raws(&["0x0001,1,+x,0,1,0x00,0x00,1"]);
    assert_eq!(
        KeylogStats::from_entries_with(&info.keymap, bad, MismatchPolicy::Skip).unwrap_err(),
        KeylogError::MalformedRecord { record: 0 }
    );
}

#[test]
fn output_frequency_counts_labels() {
    let info = info();
    let stats = KeylogStats::from_entries(&info, raws(&REFERENCE_LOG)).unwrap();
    let get = |label: &str| stats.output_frequency.iter().find(|o| o.output == label).map(|o| o.count);
    assert_eq!(get("SE_S"), Some(4));
    assert_eq!(get("COLN_SYM"), Some(2));
    assert_eq!(get("NUMWORD"), Some(1));
    assert_eq!(get("SE_Q"), None);
    let total: u64 = stats.output_frequency.iter().map(|o| o.count).sum();
    assert_eq!(total, 17);
}

#[test]
fn fields_make_records() {
    let r = raw("0x0001,+3,4,2,1,0x01,0x02,7");
    assert_eq!(r.keycode, "0x0001");
    assert_eq!(r.row, "+3");
    assert_eq!(r.highest_layer, 2);
    assert_eq!(r.tap_count, 7);
    assert_eq!(r.mods, "0x01");
    assert_eq!(
        RawKeylogEntry::from_fields(vec!["a".into()]).unwrap_err(),
        FieldError::FieldCount { found: 1 }
    );
    let bad: Vec<String> = "0x0001,3,4,z,1,0,0,1".split(',').map(String::from).collect();
    assert_eq!(RawKeylogEntry::from_fields(bad).unwrap_err(), FieldError::NotANumber { field: 3 });
    let big: Vec<String> = "0x0001,3,4,99999999999999999999999,1,0,0,1".split(',').map(String::from).collect();
    assert_eq!(RawKeylogEntry::from_fields(big).unwrap_err(), FieldError::NotANumber { field: 3 });
}

#[test]
fn empty_and_single_event_logs() {
    let info = info();
    let stats = KeylogStats::from_entries(&info, vec![]).unwrap();
    assert_eq!(stats.total_events, 0);
    assert_eq!(stats.total_key_presses, 0);
    assert_eq!(stats.total_sfb_events, 0);
    assert!(stats.finger_frequency.is_empty());
    assert!(stats.output_frequency.is_empty());
    assert!(stats.sfb_frequency_by_finger(true).is_empty());
    assert!(stats.top_sfbs(10, true).is_empty());
    let one = KeylogStats::from_entries(&info, raws(&["COMBO,NA,NA,0,0,0,0,2"])).unwrap();
    assert_eq!(one.total_events, 1);
    assert_eq!(one.total_key_presses, 5);
    assert_eq!(one.total_key_presses_right, 5);
    assert_eq!(one.total_sfb_events, 0);
}
