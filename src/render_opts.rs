use vstd::prelude::*;

use crate::physical::PhysicalLayout;
use crate::text::str_eq;

verus! {

/// Group `group` of the first match of regular expression `pattern` in `haystack`; `None` when
/// the pattern does not compile, nothing matches, or the group took no part in the match.
pub uninterp spec fn regex_group_of(pattern: Seq<char>, haystack: Seq<char>, group: nat) -> Option<
    Seq<char>,
>;

/// Relies on `regex::Regex::new`, `Regex::captures` and `Captures::get`: compiles `pattern`,
/// finds its first match in `haystack`, and hands back the text of capture group `group`.
#[verifier::external_body]
pub(crate) fn regex_group(pattern: &str, haystack: &str, group: usize) -> (r: Option<String>)
    ensures
        r matches Some(s) ==> regex_group_of(pattern@, haystack@, group as nat) == Some(s@),
        r is None ==> regex_group_of(pattern@, haystack@, group as nat) is None,
{
    let re = regex::Regex::new(pattern).ok()?;
    let caps = re.captures(haystack)?;
    caps.get(group).map(|m| m.as_str().to_string())
}

/// For each match of regular expression `pattern` in `haystack`, from left to right, the text of
/// capture groups `1..=groups`, an empty text for a group that took no part; no match at all
/// when the pattern does not compile.
pub uninterp spec fn regex_all_captures_of(pattern: Seq<char>, haystack: Seq<char>, groups: nat) -> Seq<
    Seq<Seq<char>>,
>;

/// Relies on `regex::Regex::new` and `Regex::captures_iter`: compiles `pattern` and hands back,
/// for every match in `haystack`, the text of capture groups 1 to `groups`.
#[verifier::external_body]
pub(crate) fn regex_all_captures(pattern: &str, haystack: &str, groups: usize) -> (r: Vec<Vec<String>>)
    ensures
        r@.len() == regex_all_captures_of(pattern@, haystack@, groups as nat).len(),
        forall|k: int| 0 <= k < r@.len() ==> (#[trigger] r@[k])@.len() == groups,
        forall|k: int, g: int| 0 <= k < r@.len() && 0 <= g < r@[k]@.len() ==> (#[trigger] r@[k]@[g])@ == regex_all_captures_of(pattern@, haystack@, groups as nat)[k][g],
{
    let Ok(re) = regex::Regex::new(pattern) else {
        return Vec::new();
    };
    re.captures_iter(haystack)
        .map(|c| (1..=groups).map(|g| c.get(g).map_or(String::new(), |m| m.as_str().to_string())).collect())
        .collect()
}

/// The title that a symbol key is drawn with, if it has one of its own.
pub open spec fn symbol_title(id: Seq<char>) -> Option<Seq<char>> {
    if id == "SE_DOT"@ {
        Some("."@)
    } else if id == "SE_COMM"@ {
        Some(","@)
    } else if id == "SE_SLSH"@ {
        Some("/"@)
    } else if id == "SE_LPRN"@ {
        Some("("@)
    } else if id == "SE_RPRN"@ {
        Some(")"@)
    } else if id == "SE_UNDS"@ {
        Some("_"@)
    } else if id == "SE_TILD"@ {
        Some("~"@)
    } else if id == "TILD"@ {
        Some("~"@)
    } else if id == "SE_PLUS"@ {
        Some("+"@)
    } else if id == "SE_ASTR"@ {
        Some("*"@)
    } else if id == "SE_EXLM"@ {
        Some("!"@)
    } else if id == "SE_PIPE"@ {
        Some("|"@)
    } else if id == "SE_HASH"@ {
        Some("#"@)
    } else if id == "SE_COLN"@ {
        Some(":"@)
    } else if id == "SE_AT"@ {
        Some("@"@)
    } else if id == "SE_CIRC"@ {
        Some("^"@)
    } else if id == "CIRC"@ {
        Some("^"@)
    } else if id == "SE_LCBR"@ {
        Some("{"@)
    } else if id == "SE_RCBR"@ {
        Some("}"@)
    } else if id == "SE_MINS"@ {
        Some("-"@)
    } else if id == "SE_BSLS"@ {
        Some("\\"@)
    } else if id == "SE_GRV"@ {
        Some("`"@)
    } else if id == "GRV"@ {
        Some("`"@)
    } else if id == "SE_QUES"@ {
        Some("?"@)
    } else if id == "SE_LBRC"@ {
        Some("["@)
    } else if id == "SE_RBRC"@ {
        Some("]"@)
    } else if id == "SE_LABK"@ {
        Some("<"@)
    } else if id == "SE_RABK"@ {
        Some(">"@)
    } else if id == "SE_PERC"@ {
        Some("%"@)
    } else if id == "SE_AMPR"@ {
        Some("&"@)
    } else if id == "SE_ARNG"@ {
        Some("Å"@)
    } else if id == "SE_ADIA"@ {
        Some("Ä"@)
    } else if id == "SE_ODIA"@ {
        Some("Ö"@)
    } else if id == "SE_ACUT"@ {
        Some("´"@)
    } else if id == "SE_DIAE"@ {
        Some("¨"@)
    } else if id == "SE_EQL"@ {
        Some("="@)
    } else if id == "SE_DLR"@ {
        Some("$"@)
    } else if id == "SE_QUOT"@ {
        Some("'"@)
    } else if id == "SE_DQUO"@ {
        Some("\""@)
    } else if id == "SE_SCLN"@ {
        Some(";"@)
    } else if id == "KC_UP"@ {
        Some("↑"@)
    } else if id == "KC_DOWN"@ {
        Some("↓"@)
    } else if id == "KC_LEFT"@ {
        Some("←"@)
    } else if id == "KC_RGHT"@ {
        Some("→"@)
    } else if id == "KC_HOME"@ {
        Some("Home"@)
    } else if id == "KC_END"@ {
        Some("End"@)
    } else if id == "KC_ESC"@ {
        Some("Esc"@)
    } else if id == "KC_TAB"@ {
        Some("Tab"@)
    } else if id == "KC_PGUP"@ {
        Some("PgUp"@)
    } else if id == "KC_PGDN"@ {
        Some("PgDn"@)
    } else if id == "KC_BSPC"@ {
        Some("Bspc"@)
    } else if id == "KC_DEL"@ {
        Some("Del"@)
    } else if id == "KC_ENT"@ {
        Some("Enter"@)
    } else if id == "KC_LSFT"@ {
        Some("Shift"@)
    } else if id == "KC_RSFT"@ {
        Some("Shift"@)
    } else {
        None
    }
}

/// The title that a symbol key is drawn with, if it has one of its own.
fn symbol_title_of(id: &str) -> (r: Option<String>)
    ensures
        r matches Some(t) ==> symbol_title(id@) == Some(t@),
        r is None ==> symbol_title(id@) is None,
{
    if str_eq(id, "SE_DOT") {
        Some(String::from_str("."))
    } else if str_eq(id, "SE_COMM") {
        Some(String::from_str(","))
    } else if str_eq(id, "SE_SLSH") {
        Some(String::from_str("/"))
    } else if str_eq(id, "SE_LPRN") {
        Some(String::from_str("("))
    } else if str_eq(id, "SE_RPRN") {
        Some(String::from_str(")"))
    } else if str_eq(id, "SE_UNDS") {
        Some(String::from_str("_"))
    } else if str_eq(id, "SE_TILD") {
        Some(String::from_str("~"))
    } else if str_eq(id, "TILD") {
        Some(String::from_str("~"))
    } else if str_eq(id, "SE_PLUS") {
        Some(String::from_str("+"))
    } else if str_eq(id, "SE_ASTR") {
        Some(String::from_str("*"))
    } else if str_eq(id, "SE_EXLM") {
        Some(String::from_str("!"))
    } else if str_eq(id, "SE_PIPE") {
        Some(String::from_str("|"))
    } else if str_eq(id, "SE_HASH") {
        Some(String::from_str("#"))
    } else if str_eq(id, "SE_COLN") {
        Some(String::from_str(":"))
    } else if str_eq(id, "SE_AT") {
        Some(String::from_str("@"))
    } else if str_eq(id, "SE_CIRC") {
        Some(String::from_str("^"))
    } else if str_eq(id, "CIRC") {
        Some(String::from_str("^"))
    } else if str_eq(id, "SE_LCBR") {
        Some(String::from_str("{"))
    } else if str_eq(id, "SE_RCBR") {
        Some(String::from_str("}"))
    } else if str_eq(id, "SE_MINS") {
        Some(String::from_str("-"))
    } else if str_eq(id, "SE_BSLS") {
        Some(String::from_str("\\"))
    } else if str_eq(id, "SE_GRV") {
        Some(String::from_str("`"))
    } else if str_eq(id, "GRV") {
        Some(String::from_str("`"))
    } else if str_eq(id, "SE_QUES") {
        Some(String::from_str("?"))
    } else if str_eq(id, "SE_LBRC") {
        Some(String::from_str("["))
    } else if str_eq(id, "SE_RBRC") {
        Some(String::from_str("]"))
    } else if str_eq(id, "SE_LABK") {
        Some(String::from_str("<"))
    } else if str_eq(id, "SE_RABK") {
        Some(String::from_str(">"))
    } else if str_eq(id, "SE_PERC") {
        Some(String::from_str("%"))
    } else if str_eq(id, "SE_AMPR") {
        Some(String::from_str("&"))
    } else if str_eq(id, "SE_ARNG") {
        Some(String::from_str("Å"))
    } else if str_eq(id, "SE_ADIA") {
        Some(String::from_str("Ä"))
    } else if str_eq(id, "SE_ODIA") {
        Some(String::from_str("Ö"))
    } else if str_eq(id, "SE_ACUT") {
        Some(String::from_str("´"))
    } else if str_eq(id, "SE_DIAE") {
        Some(String::from_str("¨"))
    } else if str_eq(id, "SE_EQL") {
        Some(String::from_str("="))
    } else if str_eq(id, "SE_DLR") {
        Some(String::from_str("$"))
    } else if str_eq(id, "SE_QUOT") {
        Some(String::from_str("'"))
    } else if str_eq(id, "SE_DQUO") {
        Some(String::from_str("\""))
    } else if str_eq(id, "SE_SCLN") {
        Some(String::from_str(";"))
    } else if str_eq(id, "KC_UP") {
        Some(String::from_str("↑"))
    } else if str_eq(id, "KC_DOWN") {
        Some(String::from_str("↓"))
    } else if str_eq(id, "KC_LEFT") {
        Some(String::from_str("←"))
    } else if str_eq(id, "KC_RGHT") {
        Some(String::from_str("→"))
    } else if str_eq(id, "KC_HOME") {
        Some(String::from_str("Home"))
    } else if str_eq(id, "KC_END") {
        Some(String::from_str("End"))
    } else if str_eq(id, "KC_ESC") {
        Some(String::from_str("Esc"))
    } else if str_eq(id, "KC_TAB") {
        Some(String::from_str("Tab"))
    } else if str_eq(id, "KC_PGUP") {
        Some(String::from_str("PgUp"))
    } else if str_eq(id, "KC_PGDN") {
        Some(String::from_str("PgDn"))
    } else if str_eq(id, "KC_BSPC") {
        Some(String::from_str("Bspc"))
    } else if str_eq(id, "KC_DEL") {
        Some(String::from_str("Del"))
    } else if str_eq(id, "KC_ENT") {
        Some(String::from_str("Enter"))
    } else if str_eq(id, "KC_LSFT") {
        Some(String::from_str("Shift"))
    } else if str_eq(id, "KC_RSFT") {
        Some(String::from_str("Shift"))
    } else {
        None
    }
}

/// The title a key is drawn with: the letter, digit or function-key number of a plain
/// `SE_`/`KC_` keycode, else the key's own symbol title, else its id.
pub open spec fn key_title(id: Seq<char>) -> Seq<char> {
    match regex_group_of("^(SE|KC)_([\\w\\d]|\\d+|F\\d+)$"@, id, 2) {
        Some(t) => t,
        None => match symbol_title(id) {
            Some(t) => t,
            None => id,
        },
    }
}

/// The title a key is drawn with.
pub fn key_id_to_title(id: &str) -> (r: String)
    ensures
        r@ == key_title(id@),
{
    if let Some(t) = regex_group("^(SE|KC)_([\\w\\d]|\\d+|F\\d+)$", id, 2) {
        return t;
    }
    match symbol_title_of(id) {
        Some(t) => t,
        None => String::from_str(id),
    }
}

/// How a key is drawn.
#[derive(Clone, Debug, PartialEq, Eq)]
pub struct KeyOpts {
    pub id: String,
    pub title: String,
    pub hold_title: Option<String>,
    pub class: String,
}

/// Drawing settings for a key, each of which may be left open.
#[derive(Clone, Debug)]
pub struct PartialKeyOpts {
    pub id: String,
    pub title: Option<String>,
    pub hold_title: Option<String>,
    pub class: Option<String>,
}

pub struct KeyOptsView {
    pub id: Seq<char>,
    pub title: Seq<char>,
    pub hold_title: Option<Seq<char>>,
    pub class: Seq<char>,
}

pub struct PartialKeyOptsView {
    pub id: Seq<char>,
    pub title: Option<Seq<char>>,
    pub hold_title: Option<Seq<char>>,
    pub class: Option<Seq<char>>,
}

pub open spec fn opt_view(o: Option<String>) -> Option<Seq<char>> {
    match o {
        Some(s) => Some(s@),
        None => None,
    }
}

impl View for KeyOpts {
    type V = KeyOptsView;

    open spec fn view(&self) -> KeyOptsView {
        KeyOptsView {
            id: self.id@,
            title: self.title@,
            hold_title: opt_view(self.hold_title),
            class: self.class@,
        }
    }
}

impl View for PartialKeyOpts {
    type V = PartialKeyOptsView;

    open spec fn view(&self) -> PartialKeyOptsView {
        PartialKeyOptsView {
            id: self.id@,
            title: opt_view(self.title),
            hold_title: opt_view(self.hold_title),
            class: opt_view(self.class),
        }
    }
}

/// How a key with id `id` is drawn when nothing is set for it.
pub open spec fn default_key_opts(id: Seq<char>) -> KeyOptsView {
    KeyOptsView { id, title: key_title(id), hold_title: None, class: "default"@ }
}

/// `base` with each setting of `opts` that is not left open put in its place.
pub open spec fn merged(base: KeyOptsView, opts: PartialKeyOptsView) -> KeyOptsView {
    KeyOptsView {
        id: base.id,
        title: match opts.title {
            Some(t) => t,
            None => base.title,
        },
        hold_title: match opts.hold_title {
            Some(t) => Some(t),
            None => base.hold_title,
        },
        class: match opts.class {
            Some(c) => c,
            None => base.class,
        },
    }
}

fn clone_opt(o: &Option<String>) -> (r: Option<String>)
    ensures
        opt_view(r) == opt_view(*o),
{
    match o {
        Some(s) => Some(s.clone()),
        None => None,
    }
}

impl KeyOpts {
    /// How a key with id `key_id` is drawn when nothing is set for it.
    pub fn with_defaults(key_id: &str) -> (r: KeyOpts)
        ensures
            r@ == default_key_opts(key_id@),
    {
        KeyOpts {
            id: String::from_str(key_id),
            title: key_id_to_title(key_id),
            hold_title: None,
            class: String::from_str("default"),
        }
    }

    /// Puts each setting of `opts` that is not left open in place of this one's.
    pub fn merge(&mut self, opts: &PartialKeyOpts)
        requires
            old(self).id@ == opts.id@,
        ensures
            final(self)@ == merged(old(self)@, opts@),
    {
        if let Some(title) = &opts.title {
            self.title = title.clone();
        }
        if let Some(hold_title) = &opts.hold_title {
            self.hold_title = Some(hold_title.clone());
        }
        if let Some(class) = &opts.class {
            self.class = class.clone();
        }
    }
}

impl PartialKeyOpts {
    /// The settings of one entry of a render specification, for the key `key_id`.
    pub fn from_spec(key_id: &str, spec: &KeySpec) -> (r: PartialKeyOpts)
        ensures
            r.id@ == key_id@,
            opt_view(r.title) == opt_view(spec.title),
            opt_view(r.hold_title) == opt_view(spec.hold_title),
            opt_view(r.class) == opt_view(spec.class),
    {
        PartialKeyOpts {
            id: String::from_str(key_id),
            title: clone_opt(&spec.title),
            hold_title: clone_opt(&spec.hold_title),
            class: clone_opt(&spec.class),
        }
    }
}

/// One entry of a render specification: keys that share drawing settings.
#[derive(Clone, Debug)]
pub struct KeySpec {
    pub keys: Vec<String>,
    pub title: Option<String>,
    pub hold_title: Option<String>,
    pub class: Option<String>,
}

/// The entries of a render specification for one layer, or for `default`.
#[derive(Clone, Debug)]
pub struct LayerSpec {
    pub layer: String,
    pub keys: Vec<KeySpec>,
}

/// One line of the legend.
#[derive(Clone, Debug)]
pub struct LegendSpec {
    pub class: String,
    pub title: String,
}

/// A named group of keys whose combos are drawn highlighted together.
#[derive(Clone, Debug)]
pub struct HighlightGroup {
    pub name: String,
    pub keys: Vec<String>,
}

/// A named color.
#[derive(Clone, Debug)]
pub struct ColorSpec {
    pub name: String,
    pub value: String,
}

/// Which pictures to draw, and how.
#[derive(Clone, Debug)]
pub struct RenderOutputs {
    pub effort: bool,
    pub layers: bool,
    pub legend: bool,
    pub combos: bool,
    pub combo_keys_with_separate_imgs: Vec<String>,
    pub combo_highlight_groups: Vec<HighlightGroup>,
    pub combo_background_layer_class: String,
    pub active_class_in_separate_layer: String,
}

/// The value of a picture switch that is left out.
pub fn default_true() -> (r: bool)
    ensures
        r,
{
    true
}

/// Drawing settings for keys set for one layer.
#[derive(Clone, Debug)]
pub struct LayerKeyOpts {
    pub layer: String,
    pub keys: Vec<PartialKeyOpts>,
}

/// Render options: drawing settings for keys, by default and by layer, the legend, colors,
/// the physical layout and which pictures to draw.
#[derive(Clone, Debug)]
pub struct RenderOpts {
    pub id: String,
    /// Settings for every layer; a later entry for a key overrides an earlier one.
    pub default_keys: Vec<PartialKeyOpts>,
    /// Settings by layer; a later entry for a key overrides an earlier one.
    pub layer_keys: Vec<LayerKeyOpts>,
    pub legend: Vec<LegendSpec>,
    pub colors: Vec<ColorSpec>,
    pub physical_layout: PhysicalLayout,
    pub outputs: RenderOutputs,
}

pub open spec fn partials_view(v: Seq<PartialKeyOpts>) -> Seq<PartialKeyOptsView> {
    v.map_values(|p: PartialKeyOpts| p@)
}

/// The last of `opts` for key `key`.
pub open spec fn last_for_key(opts: Seq<PartialKeyOptsView>, key: Seq<char>) -> Option<
    PartialKeyOptsView,
>
    decreases opts.len(),
{
    if opts.len() == 0 {
        None
    } else if opts.last().id == key {
        Some(opts.last())
    } else {
        last_for_key(opts.drop_last(), key)
    }
}

/// The last settings for key `key` among the entries of `layers` for layer `layer`.
pub open spec fn last_for_layer_key(layers: Seq<LayerKeyOpts>, layer: Seq<char>, key: Seq<char>) -> Option<
    PartialKeyOptsView,
>
    decreases layers.len(),
{
    if layers.len() == 0 {
        None
    } else if layers.last().layer@ == layer && last_for_key(partials_view(layers.last().keys@), key) is Some {
        last_for_key(partials_view(layers.last().keys@), key)
    } else {
        last_for_layer_key(layers.drop_last(), layer, key)
    }
}

pub open spec fn merged_opt(base: KeyOptsView, opts: Option<PartialKeyOptsView>) -> KeyOptsView {
    match opts {
        Some(o) => merged(base, o),
        None => base,
    }
}

proof fn lemma_last_for_key_id(opts: Seq<PartialKeyOptsView>, key: Seq<char>)
    ensures
        last_for_key(opts, key) matches Some(o) ==> o.id == key,
    decreases opts.len(),
{
    if opts.len() > 0 {
        lemma_last_for_key_id(opts.drop_last(), key);
    }
}

/// The last of `opts` for key `key`.
fn find_last<'a>(opts: &'a Vec<PartialKeyOpts>, key: &str) -> (r: Option<&'a PartialKeyOpts>)
    ensures
        match r {
            Some(o) => last_for_key(partials_view(opts@), key@) == Some(o@),
            None => last_for_key(partials_view(opts@), key@) is None,
        },
{
    let ghost pv = partials_view(opts@);
    let mut i: usize = opts.len();
    assert(pv.subrange(0, i as int) == pv);
    while i > 0
        invariant
            pv == partials_view(opts@),
            i <= pv.len(),
            last_for_key(pv, key@) == last_for_key(pv.subrange(0, i as int), key@),
        decreases i,
    {
        let ghost t = pv.subrange(0, i as int);
        assert(t.drop_last() == pv.subrange(0, i - 1));
        assert(t.last() == opts@[i - 1]@);
        if str_eq(opts[i - 1].id.as_str(), key) {
            return Some(&opts[i - 1]);
        }
        i = i - 1;
    }
    None
}

impl RenderOpts {
    /// How key `key_id` is drawn on layer `layer_id`: its defaults, then the settings for every
    /// layer, then those for this layer.
    pub fn get(&self, layer_id: &str, key_id: &str) -> (r: KeyOpts)
        ensures
            r@ == merged_opt(
                merged_opt(default_key_opts(key_id@), last_for_key(partials_view(self.default_keys@), key_id@)),
                last_for_layer_key(self.layer_keys@, layer_id@, key_id@),
            ),
    {
        let mut res = KeyOpts::with_defaults(key_id);
        proof {
            lemma_last_for_key_id(partials_view(self.default_keys@), key_id@);
        }
        if let Some(opts) = find_last(&self.default_keys, key_id) {
            res.merge(opts);
        }
        let ghost mid = res@;
        let mut i: usize = self.layer_keys.len();
        assert(self.layer_keys@.subrange(0, i as int) == self.layer_keys@);
        while i > 0
            invariant
                i <= self.layer_keys@.len(),
                res@ == mid,
                mid.id == key_id@,
                mid == merged_opt(
                    default_key_opts(key_id@),
                    last_for_key(partials_view(self.default_keys@), key_id@),
                ),
                last_for_layer_key(self.layer_keys@, layer_id@, key_id@) == last_for_layer_key(
                    self.layer_keys@.subrange(0, i as int),
                    layer_id@,
                    key_id@,
                ),
            decreases i,
        {
            let ghost t = self.layer_keys@.subrange(0, i as int);
            assert(t.drop_last() == self.layer_keys@.subrange(0, i - 1));
            let entry = &self.layer_keys[i - 1];
            assert(t.last() == *entry);
            proof {
                lemma_last_for_key_id(partials_view(entry.keys@), key_id@);
            }
            if str_eq(entry.layer.as_str(), layer_id) {
                if let Some(opts) = find_last(&entry.keys, key_id) {
                    res.merge(opts);
                    assert(last_for_layer_key(t, layer_id@, key_id@) == Some(opts@));
                    return res;
                }
            }
            i = i - 1;
        }
        res
    }
}

/// The settings that one entry of a render specification gives, one per key, in order.
pub open spec fn spec_partials(spec: KeySpec) -> Seq<PartialKeyOptsView> {
    Seq::new(
        spec.keys@.len(),
        |i: int|
            PartialKeyOptsView {
                id: spec.keys@[i]@,
                title: opt_view(spec.title),
                hold_title: opt_view(spec.hold_title),
                class: opt_view(spec.class),
            },
    )
}

/// The settings that the first `n` entries of a layer's render specification give, in order.
pub open spec fn specs_partials(specs: Seq<KeySpec>, n: int) -> Seq<PartialKeyOptsView>
    decreases n,
{
    if n <= 0 {
        seq![]
    } else {
        specs_partials(specs, n - 1) + spec_partials(specs[n - 1])
    }
}

/// The settings of all entries of a layer's render specification, in order.
pub open spec fn layer_partials(l: LayerSpec) -> Seq<PartialKeyOptsView> {
    specs_partials(l.keys@, l.keys@.len() as int)
}

/// The settings for every layer that the first `n` layers of a render specification give.
pub open spec fn default_partials(layers: Seq<LayerSpec>, n: int) -> Seq<PartialKeyOptsView>
    decreases n,
{
    if n <= 0 {
        seq![]
    } else if layers[n - 1].layer@ == "default"@ {
        default_partials(layers, n - 1) + layer_partials(layers[n - 1])
    } else {
        default_partials(layers, n - 1)
    }
}

/// The layers other than `default` among the first `n` of a render specification.
pub open spec fn named_layers(layers: Seq<LayerSpec>, n: int) -> Seq<LayerSpec>
    decreases n,
{
    if n <= 0 {
        seq![]
    } else if layers[n - 1].layer@ == "default"@ {
        named_layers(layers, n - 1)
    } else {
        named_layers(layers, n - 1).push(layers[n - 1])
    }
}

/// The settings of all entries of a layer's render specification.
fn partials_of(l: &LayerSpec) -> (r: Vec<PartialKeyOpts>)
    ensures
        partials_view(r@) == layer_partials(*l),
{
    let mut r: Vec<PartialKeyOpts> = Vec::new();
    let mut i: usize = 0;
    while i < l.keys.len()
        invariant
            i <= l.keys@.len(),
            partials_view(r@) == specs_partials(l.keys@, i as int),
        decreases l.keys@.len() - i,
    {
        let spec = &l.keys[i];
        let ghost base = partials_view(r@);
        let mut j: usize = 0;
        while j < spec.keys.len()
            invariant
                j <= spec.keys@.len(),
                partials_view(r@) == base + spec_partials(*spec).subrange(0, j as int),
            decreases spec.keys@.len() - j,
        {
            let ghost before = r@;
            r.push(PartialKeyOpts::from_spec(spec.keys[j].as_str(), spec));
            assert(partials_view(r@) =~= partials_view(before).push(spec_partials(*spec)[j as int]));
            assert(spec_partials(*spec).subrange(0, j + 1) =~= spec_partials(*spec).subrange(0, j as int).push(
                spec_partials(*spec)[j as int],
            ));
            j = j + 1;
        }
        assert(spec_partials(*spec).subrange(0, j as int) == spec_partials(*spec));
        assert(l.keys@[i as int] == *spec);
        i = i + 1;
    }
    r
}

impl RenderOpts {
    /// Render options from the entries of a render specification, layer by layer: entries of
    /// the layer named `default` hold for every layer.
    pub fn new(
        id: &str,
        layers: Vec<LayerSpec>,
        legend: Vec<LegendSpec>,
        colors: Vec<ColorSpec>,
        physical_layout: PhysicalLayout,
        outputs: RenderOutputs,
    ) -> (r: RenderOpts)
        ensures
            r.id@ == id@,
            partials_view(r.default_keys@) == default_partials(layers@, layers@.len() as int),
            r.layer_keys@.len() == named_layers(layers@, layers@.len() as int).len(),
            forall|k: int|
                0 <= k < r.layer_keys@.len() ==> (#[trigger] r.layer_keys@[k]).layer@ == named_layers(
                    layers@,
                    layers@.len() as int,
                )[k].layer@ && partials_view(r.layer_keys@[k].keys@) == layer_partials(
                    named_layers(layers@, layers@.len() as int)[k],
                ),
            r.legend@ == legend@,
            r.colors@ == colors@,
            r.physical_layout@ == physical_layout@,
    {
        let mut default_keys: Vec<PartialKeyOpts> = Vec::new();
        let mut layer_keys: Vec<LayerKeyOpts> = Vec::new();
        let mut i: usize = 0;
        while i < layers.len()
            invariant
                i <= layers@.len(),
                partials_view(default_keys@) == default_partials(layers@, i as int),
                layer_keys@.len() == named_layers(layers@, i as int).len(),
                forall|k: int|
                    0 <= k < layer_keys@.len() ==> (#[trigger] layer_keys@[k]).layer@ == named_layers(
                        layers@,
                        i as int,
                    )[k].layer@ && partials_view(layer_keys@[k].keys@) == layer_partials(
                        named_layers(layers@, i as int)[k],
                    ),
            decreases layers@.len() - i,
        {
            let l = &layers[i];
            let mut opts = partials_of(l);
            if str_eq(l.layer.as_str(), "default") {
                let ghost before = default_keys@;
                default_keys.append(&mut opts);
                assert(partials_view(default_keys@) =~= partials_view(before) + layer_partials(*l));
            } else {
                let ghost before = layer_keys@;
                layer_keys.push(LayerKeyOpts { layer: l.layer.clone(), keys: opts });
                assert forall|k: int| 0 <= k < layer_keys@.len() implies (#[trigger] layer_keys@[k]).layer@
                    == named_layers(layers@, i + 1)[k].layer@ && partials_view(layer_keys@[k].keys@)
                    == layer_partials(named_layers(layers@, i + 1)[k]) by {
                    if k < before.len() {
                        assert(layer_keys@[k] == before[k]);
                        assert(named_layers(layers@, i + 1)[k] == named_layers(layers@, i as int)[k]);
                    }
                }
            }
            i = i + 1;
        }
        RenderOpts {
            id: String::from_str(id),
            default_keys,
            layer_keys,
            legend,
            colors,
            physical_layout,
            outputs,
        }
    }
}

} // verus!
