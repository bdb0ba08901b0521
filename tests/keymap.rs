use keylog_stats::finger::{Finger, FingerAssignment, MatrixHalf};
use keylog_stats::keyboard::{
    parse_layers_from_source, KeySpec as MatrixKey, KeyboardSpec, KeymapError, LayoutAlias,
    LayoutSpec, NamedLayout,
};
use keylog_stats::keymap::{is_fallback_key, KeyId, Keymap, LayerDef, LayerId, LayoutId, Layer};
use keylog_stats::physical::{PhysicalLayout, PhysicalPos};
use keylog_stats::render_opts::{
    key_id_to_title, KeyOpts, KeySpec, LayerSpec, RenderOpts, RenderOutputs,
};

const KEYMAP_C: &str = r#"
// clang-format off
const uint16_t PROGMEM keymaps[][MATRIX_ROWS][MATRIX_COLS] = {
    [_BASE] = LAYOUT(
      SE_J,    SE_C,    SE_Y,    SE_F,    SE_P,         SE_X,    SE_W,    SE_O,    SE_U,    SE_DOT,
      SE_R,    SE_S,    SE_T,    SE_H,    SE_K,         SE_M,    SE_N,    SE_A,    SE_I,    REPEAT,
      SE_COMM, SE_V,    SE_G,    SE_D,    SE_B,         SE_SLSH, SE_L,    SE_LPRN, SE_RPRN, SE_UNDS,
               xxxxxxx, xxxxxxx,
                                 FUN,     MT_SPC,       SE_E
    ),
    [_NUM]  = LAYOUT(
      SE_J,    SE_PLUS, SE_ASTR, SE_EXLM, SE_P,         SE_X,    _______, AT_U,    REPEAT,  _______,
      SE_6,    SE_4,    SE_0,    SE_2,    SE_K,         _______, SE_3,    SE_1,    SE_5,    SE_7,
      SE_COMM, _______, NUM_G,   SE_8,    _______,      SE_SLSH, SE_9,    SE_LPRN, SE_RPRN, SE_UNDS,
               _______, _______,
                                 _______, _______,      _______
    )
};
        "#;

const COMBOS_DEF: &str = r##"
// Comment
COMB(num,               NUMWORD,        MT_SPC, SE_E)

SUBS(https,             "https://",     MT_SPC, SE_SLSH)
COMB(comb_boot_r,       QK_BOOT,        SE_E, SE_L, SE_LPRN, SE_RPRN, SE_UNDS)

COMB(escape_sym,        ESC_SYM,        SE_T, SE_H)
SUBS(lt_eq,             "<=",           SE_F, SE_H)

SUBS(el_str_int,        "#{}"SS_TAP(X_LEFT),  SE_X, SE_W)
        "##;

const MATRIX: [(usize, usize); 35] = [
    (1, 0), (0, 1), (0, 2), (0, 3), (0, 4), (4, 0), (4, 1), (4, 2), (4, 3), (4, 4),
    (2, 0), (1, 1), (1, 2), (1, 3), (1, 4), (5, 0), (5, 1), (5, 2), (5, 3), (5, 4),
    (3, 0), (2, 1), (2, 2), (2, 3), (2, 4), (6, 0), (6, 1), (6, 2), (6, 3), (6, 4),
    (3, 1), (3, 2),
    (3, 3), (3, 4), (7, 0),
];

fn lines(v: &[&str]) -> Vec<String> {
    v.iter().map(|s| s.to_string()).collect()
}

fn physical_layout() -> PhysicalLayout {
    PhysicalLayout::new(
        lines(&["54446    64445", "21005    50012", "64436    63446", " 77", "   80    0"]),
        lines(&["11233    33211", "01233    33210", "01233    33210", " 12", "   44    4"]),
    )
    .unwrap()
}

fn outputs() -> RenderOutputs {
    RenderOutputs {
        effort: false,
        layers: true,
        legend: true,
        combos: true,
        combo_keys_with_separate_imgs: vec![],
        combo_highlight_groups: vec![],
        combo_background_layer_class: "combo_background".to_string(),
        active_class_in_separate_layer: "active_layer".to_string(),
    }
}

fn keyboard(name: &str) -> KeyboardSpec {
    KeyboardSpec {
        layouts: vec![NamedLayout {
            name: name.to_string(),
            spec: LayoutSpec { layout: MATRIX.iter().map(|&matrix| MatrixKey { matrix }).collect() },
        }],
        layout_aliases: None,
    }
}

fn key_spec(keys: &[&str], title: Option<&str>, class: Option<&str>) -> KeySpec {
    KeySpec {
        keys: keys.iter().map(|k| k.to_string()).collect(),
        title: title.map(String::from),
        hold_title: None,
        class: class.map(String::from),
    }
}

#[test]
fn keymap_test_parse_keymap() {
    let render_opts = RenderOpts::new("id", vec![], vec![], vec![], physical_layout(), outputs());
    let keymap = Keymap::parse_from_source(KEYMAP_C, &keyboard("LAYOUT"), COMBOS_DEF, &render_opts).unwrap();

    assert_eq!(keymap.layers.len(), 2);
    assert_eq!(keymap.layers[0].id.0, "_BASE");
    assert_eq!(keymap.layers[0].keys.len(), 35);
    assert_eq!(keymap.layers[1].id.0, "_NUM");
    assert_eq!(keymap.layers[1].keys[1].id.0, "SE_PLUS");

    let base = &keymap.layers[0];
    assert_eq!(base.find_key_by_matrix((1, 0)).unwrap().id.0, "SE_J");
    assert_eq!(base.find_key_by_matrix((0, 1)).unwrap().id.0, "SE_C");
    assert_eq!(base.find_key_by_matrix((6, 4)).unwrap().id.0, "SE_UNDS");
    assert_eq!(base.find_key_by_matrix((3, 4)).unwrap().id.0, "MT_SPC");
    assert_eq!(base.find_key_by_physical_pos((0, 0)).unwrap().id.0, "SE_J");
    assert_eq!(base.find_key_by_physical_pos((1, 0)).unwrap().id.0, "SE_C");
    assert_eq!(base.find_key_by_physical_pos((2, 0)).unwrap().id.0, "SE_Y");
    assert_eq!(base.find_key_by_physical_pos((3, 0)).unwrap().id.0, "SE_F");
    assert_eq!(base.find_key_by_physical_pos((4, 0)).unwrap().id.0, "SE_P");
    assert_eq!(base.find_key_by_physical_pos((5, 0)).unwrap().id.0, "SE_X");
    assert_eq!(base.find_key_by_physical_pos((6, 0)).unwrap().id.0, "SE_W");
    assert_eq!(base.find_key_by_physical_pos((7, 0)).unwrap().id.0, "SE_O");
    assert_eq!(base.find_key_by_physical_pos((8, 0)).unwrap().id.0, "SE_U");
    assert_eq!(base.find_key_by_physical_pos((9, 0)).unwrap().id.0, "SE_DOT");
    assert_eq!(base.find_key_by_physical_pos((0, 1)).unwrap().id.0, "SE_R");

    assert_eq!(keymap.combos.len(), 6);
    assert_eq!(keymap.combos[0].output, "NUMWORD");
    assert_eq!(keymap.combos[0].keys[0].id.0, "MT_SPC");
    assert_eq!(keymap.combos[0].keys[1].id.0, "SE_E");
    assert_eq!(
        keymap.combos[0].keys[0].physical_pos,
        PhysicalPos {
            col: 4,
            row: 4,
            effort: 0,
            finger: FingerAssignment { finger: Finger::Thumb, half: MatrixHalf::Left }
        }
    );
    assert_eq!(
        keymap.combos[0].keys[1].physical_pos,
        PhysicalPos {
            col: 5,
            row: 4,
            effort: 0,
            finger: FingerAssignment { finger: Finger::Thumb, half: MatrixHalf::Right }
        }
    );
    assert!(keymap.combos[1].contains_input_key("MT_SPC"));
    assert!(!keymap.combos[3].contains_input_key("MT_SPC"));
    assert!(keymap.combos[3].is_horizontal_neighbour());
    assert!(!keymap.combos[3].is_vertical_neighbour());
    assert!(!keymap.combos[4].is_horizontal_neighbour());
    assert!(keymap.combos[4].is_vertical_neighbour());

    assert_eq!(keymap.combos[5].output, "\"#{}\"SS_TAP(X_LEFT)");
    assert_eq!(keymap.combos[1].output, "https://");
    assert_eq!(keymap.combos[2].get_positions().len(), 5);
}

#[test]
fn layers_from_keymap_source() {
    let defs = parse_layers_from_source(KEYMAP_C);
    assert_eq!(defs.len(), 2);
    assert_eq!(defs[0].layer_id.0, "_BASE");
    assert_eq!(defs[0].layout_id.0, "LAYOUT");
    assert_eq!(defs[0].keys.len(), 35);
    assert_eq!(defs[0].keys[34].0, "SE_E");
    assert_eq!(defs[1].keys[6].0, "_______");
    assert!(parse_layers_from_source("no keymap here").is_empty());
}

#[test]
fn keymap_errors() {
    let render_opts = RenderOpts::new("id", vec![], vec![], vec![], physical_layout(), outputs());
    assert_eq!(
        Keymap::parse_from_source(KEYMAP_C, &keyboard("OTHER"), COMBOS_DEF, &render_opts).unwrap_err(),
        KeymapError::UnknownLayout
    );
    let mut aliased = keyboard("OTHER");
    aliased.layout_aliases = Some(vec![LayoutAlias { alias: "LAYOUT".into(), target: "OTHER".into() }]);
    assert!(Keymap::parse_from_source(KEYMAP_C, &aliased, COMBOS_DEF, &render_opts).is_ok());
    let mut circle = keyboard("OTHER");
    circle.layout_aliases = Some(vec![
        LayoutAlias { alias: "LAYOUT".into(), target: "A".into() },
        LayoutAlias { alias: "A".into(), target: "LAYOUT".into() },
    ]);
    assert!(circle.get_layout("LAYOUT").is_none());
    assert_eq!(
        Keymap::parse_from_source("", &keyboard("LAYOUT"), COMBOS_DEF, &render_opts).unwrap_err(),
        KeymapError::NoLayers
    );
    assert_eq!(
        Keymap::parse_from_source(KEYMAP_C, &keyboard("LAYOUT"), "\nCOMB(x, Y, SE_ZZ)\n", &render_opts).unwrap_err(),
        KeymapError::UnknownComboKey { line: 1 }
    );
    assert_eq!(
        Keymap::parse_from_source(KEYMAP_C, &keyboard("LAYOUT"), "COMB(x)", &render_opts).unwrap_err(),
        KeymapError::MalformedCombo { line: 0 }
    );
    let short = LayerDef {
        layer_id: LayerId("_X".into()),
        layout_id: LayoutId("LAYOUT".into()),
        keys: vec![KeyId("SE_A".into())],
    };
    assert_eq!(
        Layer::new(short, &keyboard("LAYOUT"), &render_opts).unwrap_err(),
        KeymapError::KeyCountMismatch { keys: 1, expected: 35 }
    );
    assert!(is_fallback_key(&KeyId("_______".into())));
    assert!(is_fallback_key(&KeyId("xxxxxxx".into())));
    assert!(!is_fallback_key(&KeyId("SE_A".into())));
}

#[test]
fn layer_key_replacement() {
    let render_opts = RenderOpts::new("id", vec![], vec![], vec![], physical_layout(), outputs());
    let mut keymap = Keymap::parse_from_source(KEYMAP_C, &keyboard("LAYOUT"), COMBOS_DEF, &render_opts).unwrap();
    let layer = &mut keymap.layers[0];
    layer.replace_key_id("SE_C", "SE_Q");
    assert_eq!(layer.keys[1].id.0, "SE_Q");
    assert!(layer.find_key_by_id("SE_C").is_none());
    assert_eq!(layer.find_key_by_id("SE_Q").unwrap().matrix_pos, (0, 1));
}

#[test]
fn render_opts_test_parse_render_opts() {
    let layers = vec![
        LayerSpec {
            layer: "default".into(),
            keys: vec![
                key_spec(&["_______", "xxxxxxx"], Some(""), Some("blank")),
                key_spec(&["SE_LPRN"], Some("("), None),
            ],
        },
        LayerSpec {
            layer: "_NUM".into(),
            keys: vec![key_spec(
                &["SE_J", "SE_P", "SE_K", "AT_U", "SE_LPRN", "SE_RPRN", "NUM_G"],
                None,
                Some("management"),
            )],
        },
    ];
    let opts = RenderOpts::new("id", layers, vec![], vec![], physical_layout(), outputs());

    let a = opts.get("_BASE", "SE_A");
    assert_eq!(
        a,
        KeyOpts {
            id: "SE_A".to_string(),
            title: "A".to_string(),
            hold_title: None,
            class: "default".to_string(),
        }
    );

    let lprn = opts.get("_NUM", "SE_LPRN");
    assert_eq!(
        lprn,
        KeyOpts {
            id: "SE_LPRN".to_string(),
            title: "(".to_string(),
            hold_title: None,
            class: "management".to_string(),
        }
    );
    assert_eq!(opts.get("_BASE", "_______").class, "blank");
}

#[test]
fn key_titles() {
    assert_eq!(key_id_to_title("SE_A"), "A");
    assert_eq!(key_id_to_title("KC_F12"), "F12");
    assert_eq!(key_id_to_title("KC_12"), "12");
    assert_eq!(key_id_to_title("SE_DOT"), ".");
    assert_eq!(key_id_to_title("KC_LEFT"), "←");
    assert_eq!(key_id_to_title("MT_SPC"), "MT_SPC");
}

#[test]
fn combo_keys_are_sorted_by_column_then_row() {
    let layout = physical_layout();
    let mk = |id: &str, i: usize| keylog_stats::keymap::Key {
        id: KeyId(id.into()),
        physical_pos: layout.index_to_pos(i),
        matrix_pos: MATRIX[i],
    };
    let combo = keylog_stats::keymap::Combo::new(
        "c".into(),
        "OUT".into(),
        vec![mk("SE_UNDS", 29), mk("SE_E", 34), mk("SE_L", 26), mk("SE_W", 6)],
    );
    let ids: Vec<&str> = combo.keys.iter().map(|k| k.id.0.as_str()).collect();
    assert_eq!(ids, vec!["SE_E", "SE_W", "SE_L", "SE_UNDS"]);
    assert_eq!(combo.get_fingers().len(), 3);
    assert!(!combo.is_mid_triple());
}

#[test]
fn layer_longer_than_physical_layout() {
    let tiny = PhysicalLayout::new(lines(&["1"]), lines(&["1"])).unwrap();
    let render_opts = RenderOpts::new("id", vec![], vec![], vec![], tiny, outputs());
    assert_eq!(
        Keymap::parse_from_source(KEYMAP_C, &keyboard("LAYOUT"), COMBOS_DEF, &render_opts).unwrap_err(),
        KeymapError::PhysicalLayoutTooShort { keys: 35, positions: 1 }
    );
}
