use vstd::prelude::*;

use crate::keymap::{
    keys_view, sorted_keys, Combo, ComboView, Key, KeyId, KeyView, Keymap, Layer,
    KeymapView, LayerDef, LayerId, LayerView,
};
use crate::physical::PhysicalPos;
use crate::render_opts::{regex_all_captures, regex_all_captures_of, regex_group, regex_group_of, RenderOpts};
use crate::text::{lines_of, split_char, split_on_char, str_eq, text_lines, trim, trimmed};

verus! {

/// The firmware matrix coordinate of one key of a layout.
#[derive(Debug)]
pub struct KeySpec {
    pub matrix: (usize, usize),
}

/// The keys of a layout macro, in the order a keymap lists them.
#[derive(Debug)]
pub struct LayoutSpec {
    pub layout: Vec<KeySpec>,
}

/// A layout macro with its name.
#[derive(Debug)]
pub struct NamedLayout {
    pub name: String,
    pub spec: LayoutSpec,
}

/// Another name for a layout macro.
#[derive(Debug)]
pub struct LayoutAlias {
    pub alias: String,
    pub target: String,
}

/// The layouts of a keyboard description.
#[derive(Debug)]
pub struct KeyboardSpec {
    pub layouts: Vec<NamedLayout>,
    pub layout_aliases: Option<Vec<LayoutAlias>>,
}

/// Why a keymap cannot be built.
#[derive(Clone, Copy, PartialEq, Eq, Structural, Debug)]
pub enum KeymapError {
    /// The keyboard has no layout of the name that a layer uses.
    UnknownLayout,
    /// A layer lists another number of keys than its layout has.
    KeyCountMismatch { keys: usize, expected: usize },
    /// The physical layout has fewer keys than a layer.
    PhysicalLayoutTooShort { keys: usize, positions: usize },
    /// The keymap has no layer.
    NoLayers,
    /// A combo definition on this line has fewer than an id and an output.
    MalformedCombo { line: usize },
    /// A combo definition on this line names a key that the base layer does not have.
    UnknownComboKey { line: usize },
}

/// The index of the first layout named `id` at or after `i`.
pub open spec fn layout_index_from(layouts: Seq<NamedLayout>, id: Seq<char>, i: int) -> Option<int>
    decreases layouts.len() - i,
{
    if i < 0 || i >= layouts.len() {
        None
    } else if layouts[i].name@ == id {
        Some(i)
    } else {
        layout_index_from(layouts, id, i + 1)
    }
}

/// The index of the first alias named `id` at or after `i`.
pub open spec fn alias_index_from(aliases: Seq<LayoutAlias>, id: Seq<char>, i: int) -> Option<int>
    decreases aliases.len() - i,
{
    if i < 0 || i >= aliases.len() {
        None
    } else if aliases[i].alias@ == id {
        Some(i)
    } else {
        alias_index_from(aliases, id, i + 1)
    }
}

pub open spec fn aliases_of(ks: KeyboardSpec) -> Seq<LayoutAlias> {
    match ks.layout_aliases {
        Some(a) => a@,
        None => seq![],
    }
}

/// The index of the layout that `id` names, following at most `hops` aliases.
pub open spec fn layout_lookup(ks: KeyboardSpec, id: Seq<char>, hops: nat) -> Option<int>
    decreases hops,
{
    match layout_index_from(ks.layouts@, id, 0) {
        Some(i) => Some(i),
        None => if hops == 0 {
            None
        } else {
            match alias_index_from(aliases_of(ks), id, 0) {
                Some(a) => layout_lookup(ks, aliases_of(ks)[a].target@, (hops - 1) as nat),
                None => None,
            }
        },
    }
}

/// The index of the layout that `id` names; a chain of aliases longer than the number of
/// aliases goes round in a circle and names none.
pub open spec fn resolve_layout(ks: KeyboardSpec, id: Seq<char>) -> Option<int> {
    layout_lookup(ks, id, aliases_of(ks).len())
}

proof fn lemma_index_from_bounds(layouts: Seq<NamedLayout>, id: Seq<char>, i: int)
    ensures
        layout_index_from(layouts, id, i) matches Some(j) ==> 0 <= j < layouts.len(),
    decreases layouts.len() - i,
{
    if 0 <= i < layouts.len() && layouts[i].name@ != id {
        lemma_index_from_bounds(layouts, id, i + 1);
    }
}

proof fn lemma_alias_from_bounds(aliases: Seq<LayoutAlias>, id: Seq<char>, i: int)
    ensures
        alias_index_from(aliases, id, i) matches Some(j) ==> 0 <= j < aliases.len(),
    decreases aliases.len() - i,
{
    if 0 <= i < aliases.len() && aliases[i].alias@ != id {
        lemma_alias_from_bounds(aliases, id, i + 1);
    }
}

proof fn lemma_lookup_bounds(ks: KeyboardSpec, id: Seq<char>, hops: nat)
    ensures
        layout_lookup(ks, id, hops) matches Some(j) ==> 0 <= j < ks.layouts@.len(),
    decreases hops,
{
    lemma_index_from_bounds(ks.layouts@, id, 0);
    lemma_alias_from_bounds(aliases_of(ks), id, 0);
    if hops > 0 {
        match alias_index_from(aliases_of(ks), id, 0) {
            Some(a) => lemma_lookup_bounds(ks, aliases_of(ks)[a].target@, (hops - 1) as nat),
            None => {},
        }
    }
}

fn find_layout(layouts: &Vec<NamedLayout>, id: &str) -> (r: Option<usize>)
    ensures
        match r {
            Some(i) => layout_index_from(layouts@, id@, 0) == Some(i as int),
            None => layout_index_from(layouts@, id@, 0) is None,
        },
{
    let mut i: usize = 0;
    while i < layouts.len()
        invariant
            i <= layouts@.len(),
            layout_index_from(layouts@, id@, 0) == layout_index_from(layouts@, id@, i as int),
        decreases layouts@.len() - i,
    {
        if str_eq(layouts[i].name.as_str(), id) {
            return Some(i);
        }
        i = i + 1;
    }
    None
}

fn find_alias(aliases: &Vec<LayoutAlias>, id: &str) -> (r: Option<usize>)
    ensures
        match r {
            Some(i) => alias_index_from(aliases@, id@, 0) == Some(i as int),
            None => alias_index_from(aliases@, id@, 0) is None,
        },
{
    let mut i: usize = 0;
    while i < aliases.len()
        invariant
            i <= aliases@.len(),
            alias_index_from(aliases@, id@, 0) == alias_index_from(aliases@, id@, i as int),
        decreases aliases@.len() - i,
    {
        if str_eq(aliases[i].alias.as_str(), id) {
            return Some(i);
        }
        i = i + 1;
    }
    None
}

impl KeyboardSpec {
    /// The layout that `id` names, directly or through aliases.
    pub fn get_layout(&self, id: &str) -> (r: Option<&LayoutSpec>)
        ensures
            match resolve_layout(*self, id@) {
                Some(i) => r matches Some(l) && *l == self.layouts@[i].spec,
                None => r is None,
            },
    {
        let no_aliases: Vec<LayoutAlias> = Vec::new();
        let aliases = match &self.layout_aliases {
            Some(a) => a,
            None => &no_aliases,
        };
        assert(aliases@ == aliases_of(*self));
        let mut name = String::from_str(id);
        let mut hops: usize = aliases.len();
        loop
            invariant
                aliases@ == aliases_of(*self),
                resolve_layout(*self, id@) == layout_lookup(*self, name@, hops as nat),
            decreases hops,
        {
            proof {
                lemma_lookup_bounds(*self, name@, hops as nat);
                lemma_alias_from_bounds(aliases@, name@, 0);
            }
            if let Some(i) = find_layout(&self.layouts, name.as_str()) {
                assert(layout_index_from(self.layouts@, name@, 0) == Some(i as int));
                assert(layout_index_from((*self).layouts@, name@, 0) == Some(i as int));
                assert(layout_lookup(*self, name@, hops as nat) == Some(i as int));
                return Some(&self.layouts[i].spec);
            }
            if hops == 0 {
                return None;
            }
            match find_alias(aliases, name.as_str()) {
                Some(a) => {
                    let ghost prev = name@;
                    name = aliases[a].target.clone();
                    assert(layout_lookup(*self, prev, hops as nat) == layout_lookup(
                        *self,
                        name@,
                        (hops - 1) as nat,
                    ));
                },
                None => {
                    return None;
                },
            }
            hops = hops - 1;
        }
    }
}

pub open spec fn key_ids_view(v: Seq<KeyId>) -> Seq<Seq<char>> {
    v.map_values(|k: KeyId| k@)
}

/// The layer that `def` describes on keyboard `ks`, each key placed by the physical layout `phys`.
pub open spec fn layer_of(def: LayerDef, ks: KeyboardSpec, phys: Seq<PhysicalPos>) -> Result<
    LayerView,
    KeymapError,
> {
    match resolve_layout(ks, def.layout_id@) {
        None => Err(KeymapError::UnknownLayout),
        Some(i) => {
            let l = ks.layouts@[i].spec.layout@;
            let n = def.keys@.len();
            if n != l.len() {
                Err(KeymapError::KeyCountMismatch { keys: n as usize, expected: l.len() as usize })
            } else if n > phys.len() {
                Err(KeymapError::PhysicalLayoutTooShort { keys: n as usize, positions: phys.len() as usize })
            } else {
                Ok(
                    LayerView {
                        id: def.layer_id@,
                        keys: Seq::new(
                            n,
                            |j: int|
                                KeyView {
                                    id: def.keys@[j]@,
                                    physical_pos: phys[j],
                                    matrix_pos: l[j].matrix,
                                },
                        ),
                    },
                )
            }
        },
    }
}

impl Layer {
    /// The layer that `def` describes, its keys placed by the keyboard's layout and the
    /// physical layout of `render_opts`.
    pub fn new(def: LayerDef, spec: &KeyboardSpec, render_opts: &RenderOpts) -> (r: Result<
        Layer,
        KeymapError,
    >)
        ensures
            match layer_of(def, *spec, render_opts.physical_layout@) {
                Ok(lv) => r matches Ok(l) && l@ == lv,
                Err(e) => r == Err::<Layer, KeymapError>(e),
            },
    {
        proof {
            lemma_lookup_bounds(*spec, def.layout_id@, aliases_of(*spec).len());
        }
        let layout_spec = match spec.get_layout(def.layout_id.0.as_str()) {
            Some(l) => l,
            None => {
                return Err(KeymapError::UnknownLayout);
            },
        };
        let n = def.keys.len();
        if n != layout_spec.layout.len() {
            return Err(KeymapError::KeyCountMismatch { keys: n, expected: layout_spec.layout.len() });
        }
        let phys = &render_opts.physical_layout;
        if n > phys.len() {
            return Err(KeymapError::PhysicalLayoutTooShort { keys: n, positions: phys.len() });
        }
        let ghost target = layer_of(def, *spec, render_opts.physical_layout@);
        proof {
            let idx = resolve_layout(*spec, def.layout_id@).unwrap();
            assert(layout_spec.layout@ == spec.layouts@[idx].spec.layout@);
        }
        let mut keys: Vec<Key> = Vec::new();
        let mut i: usize = 0;
        while i < n
            invariant
                n == def.keys@.len(),
                n == layout_spec.layout@.len(),
                n <= phys@.len(),
                phys@ == render_opts.physical_layout@,
                target matches Ok(lv) && lv.keys.len() == n && keys_view(keys@) == lv.keys.subrange(
                    0,
                    i as int,
                ) && lv.id == def.layer_id@,
                i <= n,
                forall|j: int|
                    0 <= j < n ==> #[trigger] target.unwrap().keys[j] == (KeyView {
                        id: def.keys@[j]@,
                        physical_pos: phys@[j],
                        matrix_pos: layout_spec.layout@[j].matrix,
                    }),
            decreases n - i,
        {
            let ghost before = keys@;
            keys.push(
                Key {
                    id: KeyId(def.keys[i].0.clone()),
                    physical_pos: phys.index_to_pos(i),
                    matrix_pos: layout_spec.layout[i].matrix,
                },
            );
            proof {
                let lv = target.unwrap();
                assert(keys@.last()@ == lv.keys[i as int]);
                assert(keys_view(keys@) =~= keys_view(before).push(keys@.last()@));
                assert(keys_view(keys@) =~= lv.keys.subrange(0, i + 1));
            }
            i = i + 1;
        }
        let layer = Layer { id: LayerId(def.layer_id.0.clone()), keys };
        assert(layer@.keys =~= target.unwrap().keys);
        Ok(layer)
    }
}

/// The last of `keys` with symbol `id`.
pub open spec fn last_key_with_id(keys: Seq<KeyView>, id: Seq<char>) -> Option<KeyView>
    decreases keys.len(),
{
    if keys.len() == 0 {
        None
    } else if keys.last().id == id {
        Some(keys.last())
    } else {
        last_key_with_id(keys.drop_last(), id)
    }
}

/// The arguments of a combo definition: the text between its parentheses cut at commas and
/// trimmed.
pub open spec fn combo_args(body: Seq<char>) -> Seq<Seq<char>> {
    split_char(body, ',').map_values(|a: Seq<char>| trim(a))
}

/// The base-layer keys that arguments `2..n` of a combo definition name, or `None` if one of
/// them names no key; a later key with the same symbol wins.
pub open spec fn combo_keys_upto(args: Seq<Seq<char>>, base: Seq<KeyView>, n: int) -> Option<Seq<KeyView>>
    decreases n,
{
    if n <= 2 {
        Some(seq![])
    } else {
        match combo_keys_upto(args, base, n - 1) {
            None => None,
            Some(ks) => match last_key_with_id(base, args[n - 1]) {
                None => None,
                Some(k) => Some(ks.push(k)),
            },
        }
    }
}

/// The pattern of a combo definition line: `COMB(...)` or `SUBS(...)`.
pub open spec fn combo_line_pattern() -> Seq<char> {
    "^\\s*(COMB|SUBS)\\((.+)\\)\\s*$"@
}

/// The pattern of a quoted output.
pub open spec fn quoted_pattern() -> Seq<char> {
    "^\"([^\"]+)\"$"@
}

/// The combo that line number `index` of a combo definition file defines, if it defines one:
/// its arguments are an id, an output (quotes around it dropped for `SUBS`) and the symbols
/// of its keys on the base layer.
pub open spec fn combo_of_line(line: Seq<char>, base: Seq<KeyView>, index: int) -> Option<
    Result<ComboView, KeymapError>,
> {
    match (regex_group_of(combo_line_pattern(), line, 1), regex_group_of(combo_line_pattern(), line, 2)) {
        (Some(kind), Some(body)) => {
            let args = combo_args(body);
            if args.len() < 2 {
                Some(Err(KeymapError::MalformedCombo { line: index as usize }))
            } else {
                let output = if kind == "SUBS"@ {
                    match regex_group_of(quoted_pattern(), args[1], 1) {
                        Some(q) => q,
                        None => args[1],
                    }
                } else {
                    args[1]
                };
                match combo_keys_upto(args, base, args.len() as int) {
                    None => Some(Err(KeymapError::UnknownComboKey { line: index as usize })),
                    Some(keys) => Some(
                        Ok(ComboView { id: args[0], output, keys: sorted_keys(keys) }),
                    ),
                }
            }
        },
        _ => None,
    }
}

/// The combos that the first `n` lines define, or the first failure.
pub open spec fn combos_upto(lines: Seq<Seq<char>>, base: Seq<KeyView>, n: int) -> Result<
    Seq<ComboView>,
    KeymapError,
>
    decreases n,
{
    if n <= 0 {
        Ok(seq![])
    } else {
        match combos_upto(lines, base, n - 1) {
            Err(e) => Err(e),
            Ok(cs) => match combo_of_line(lines[n - 1], base, n - 1) {
                None => Ok(cs),
                Some(Err(e)) => Err(e),
                Some(Ok(c)) => Ok(cs.push(c)),
            },
        }
    }
}

/// The combos that a combo definition file defines, line by line, or the first failure.
pub open spec fn combos_of(src: Seq<char>, base: Seq<KeyView>) -> Result<Seq<ComboView>, KeymapError> {
    combos_upto(text_lines(src), base, text_lines(src).len() as int)
}

proof fn lemma_combos_error_stays(lines: Seq<Seq<char>>, base: Seq<KeyView>, m: int, n: int)
    requires
        0 <= m <= n,
        combos_upto(lines, base, m) is Err,
    ensures
        combos_upto(lines, base, n) == combos_upto(lines, base, m),
    decreases n - m,
{
    if m < n {
        lemma_combos_error_stays(lines, base, m, n - 1);
    }
}

/// A copy of the last of `keys` with symbol `id`.
fn last_key_with_id_exec(keys: &Vec<Key>, id: &str) -> (r: Option<Key>)
    ensures
        match r {
            Some(k) => last_key_with_id(keys_view(keys@), id@) == Some(k@),
            None => last_key_with_id(keys_view(keys@), id@) is None,
        },
{
    let ghost kv = keys_view(keys@);
    let mut i: usize = keys.len();
    assert(kv.subrange(0, i as int) == kv);
    while i > 0
        invariant
            kv == keys_view(keys@),
            i <= kv.len(),
            last_key_with_id(kv, id@) == last_key_with_id(kv.subrange(0, i as int), id@),
        decreases i,
    {
        let ghost t = kv.subrange(0, i as int);
        assert(t.drop_last() == kv.subrange(0, i - 1));
        assert(t.last() == keys@[i - 1]@);
        if str_eq(keys[i - 1].id.0.as_str(), id) {
            return Some(keys[i - 1].duplicate());
        }
        i = i - 1;
    }
    None
}

/// The combo that one line of a combo definition file defines, if it defines one.
fn combo_from_line(line: &str, base: &Vec<Key>, index: usize) -> (r: Option<Result<Combo, KeymapError>>)
    ensures
        match combo_of_line(line@, keys_view(base@), index as int) {
            None => r is None,
            Some(Err(e)) => r == Some(Err::<Combo, KeymapError>(e)),
            Some(Ok(c)) => r matches Some(Ok(x)) && x@ == c,
        },
{
    let pattern = "^\\s*(COMB|SUBS)\\((.+)\\)\\s*$";
    let kind = regex_group(pattern, line, 1);
    let body = regex_group(pattern, line, 2);
    let (kind, body) = match (kind, body) {
        (Some(k), Some(b)) => (k, b),
        _ => {
            return None;
        },
    };
    let pieces = split_on_char(body.as_str(), ',');
    let ghost args = combo_args(body@);
    let mut trimmed_args: Vec<String> = Vec::new();
    let mut i: usize = 0;
    while i < pieces.len()
        invariant
            args == combo_args(body@),
            pieces@.len() == args.len(),
            forall|k: int| 0 <= k < pieces@.len() ==> (#[trigger] pieces@[k])@ == split_char(body@, ',')[k],
            i <= pieces@.len(),
            trimmed_args@.len() == i,
            forall|k: int| 0 <= k < i ==> (#[trigger] trimmed_args@[k])@ == args[k],
        decreases pieces@.len() - i,
    {
        trimmed_args.push(trimmed(pieces[i].as_str()));
        i = i + 1;
    }
    if trimmed_args.len() < 2 {
        return Some(Err(KeymapError::MalformedCombo { line: index }));
    }
    let id = trimmed_args[0].clone();
    let output_s = trimmed_args[1].clone();
    let output = if str_eq(kind.as_str(), "SUBS") {
        match regex_group("^\"([^\"]+)\"$", output_s.as_str(), 1) {
            Some(q) => q,
            None => output_s,
        }
    } else {
        output_s
    };
    let ghost kv = keys_view(base@);
    let mut keys: Vec<Key> = Vec::new();
    let mut j: usize = 2;
    assert(pattern@ == combo_line_pattern());
    while j < trimmed_args.len()
        invariant
            2 <= j <= trimmed_args@.len(),
            trimmed_args@.len() == args.len(),
            forall|k: int| 0 <= k < trimmed_args@.len() ==> (#[trigger] trimmed_args@[k])@ == args[k],
            kv == keys_view(base@),
            combo_keys_upto(args, kv, j as int) == Some(keys_view(keys@)),
            regex_group_of(combo_line_pattern(), line@, 1) == Some(kind@),
            regex_group_of(combo_line_pattern(), line@, 2) == Some(body@),
            args == combo_args(body@),
        decreases trimmed_args@.len() - j,
    {
        match last_key_with_id_exec(base, trimmed_args[j].as_str()) {
            Some(k) => {
                let ghost before = keys@;
                keys.push(k);
                assert(keys_view(keys@) =~= keys_view(before).push(keys@.last()@));
            },
            None => {
                proof {
                    assert(combo_keys_upto(args, kv, j + 1) is None);
                    lemma_combo_keys_none_stays(args, kv, j + 1, args.len() as int);
                }
                return Some(Err(KeymapError::UnknownComboKey { line: index }));
            },
        }
        j = j + 1;
    }
    Some(Ok(Combo::new(id, output, keys)))
}

proof fn lemma_combo_keys_none_stays(args: Seq<Seq<char>>, base: Seq<KeyView>, m: int, n: int)
    requires
        2 <= m <= n,
        combo_keys_upto(args, base, m) is None,
    ensures
        combo_keys_upto(args, base, n) is None,
    decreases n - m,
{
    if m < n {
        lemma_combo_keys_none_stays(args, base, m, n - 1);
    }
}

/// The combos that a combo definition file defines, their keys looked up on the base layer.
pub fn parse_combos_from_source(src: &str, base_layer: &Layer) -> (r: Result<Vec<Combo>, KeymapError>)
    ensures
        match combos_of(src@, base_layer@.keys) {
            Ok(cs) => r matches Ok(v) && v@.map_values(|c: Combo| c@) == cs,
            Err(e) => r == Err::<Vec<Combo>, KeymapError>(e),
        },
{
    let lines = lines_of(src);
    let ghost ls = text_lines(src@);
    let ghost base = base_layer@.keys;
    let mut res: Vec<Combo> = Vec::new();
    let mut i: usize = 0;
    assert(res@.map_values(|c: Combo| c@) =~= Seq::<ComboView>::empty());
    while i < lines.len()
        invariant
            ls == text_lines(src@),
            base == base_layer@.keys,
            lines@.len() == ls.len(),
            forall|k: int| 0 <= k < lines@.len() ==> (#[trigger] lines@[k])@ == ls[k],
            i <= ls.len(),
            combos_upto(ls, base, i as int) == Ok::<Seq<ComboView>, KeymapError>(
                res@.map_values(|c: Combo| c@),
            ),
        decreases ls.len() - i,
    {
        assert(lines@[i as int]@ == ls[i as int]);
        match combo_from_line(lines[i].as_str(), &base_layer.keys, i) {
            None => {},
            Some(Err(e)) => {
                proof {
                    lemma_combos_error_stays(ls, base, i + 1, ls.len() as int);
                }
                return Err(e);
            },
            Some(Ok(c)) => {
                let ghost before = res@;
                res.push(c);
                assert(res@.map_values(|c: Combo| c@) =~= before.map_values(|c: Combo| c@).push(
                    res@.last()@,
                ));
            },
        }
        i = i + 1;
    }
    Ok(res)
}

/// The layers that the first `n` layer definitions describe, or the first failure.
pub open spec fn layers_upto(defs: Seq<LayerDef>, ks: KeyboardSpec, phys: Seq<PhysicalPos>, n: int) -> Result<
    Seq<LayerView>,
    KeymapError,
>
    decreases n,
{
    if n <= 0 {
        Ok(seq![])
    } else {
        match layers_upto(defs, ks, phys, n - 1) {
            Err(e) => Err(e),
            Ok(ls) => match layer_of(defs[n - 1], ks, phys) {
                Err(e) => Err(e),
                Ok(l) => Ok(ls.push(l)),
            },
        }
    }
}

/// The keymap that layer definitions, a keyboard description and a combo definition file
/// describe; combo keys are looked up on the first layer.
pub open spec fn keymap_of(defs: Seq<LayerDef>, ks: KeyboardSpec, phys: Seq<PhysicalPos>, combos: Seq<char>) -> Result<
    KeymapView,
    KeymapError,
> {
    match layers_upto(defs, ks, phys, defs.len() as int) {
        Err(e) => Err(e),
        Ok(ls) => if ls.len() == 0 {
            Err(KeymapError::NoLayers)
        } else {
            match combos_of(combos, ls[0].keys) {
                Err(e) => Err(e),
                Ok(cs) => Ok(KeymapView { layers: ls, combos: cs }),
            }
        },
    }
}

proof fn lemma_layers_error_stays(defs: Seq<LayerDef>, ks: KeyboardSpec, phys: Seq<PhysicalPos>, m: int, n: int)
    requires
        0 <= m <= n,
        layers_upto(defs, ks, phys, m) is Err,
    ensures
        layers_upto(defs, ks, phys, n) == layers_upto(defs, ks, phys, m),
    decreases n - m,
{
    if m < n {
        lemma_layers_error_stays(defs, ks, phys, m, n - 1);
    }
}

proof fn lemma_layers_len(defs: Seq<LayerDef>, ks: KeyboardSpec, phys: Seq<PhysicalPos>, n: int)
    requires
        0 <= n,
    ensures
        layers_upto(defs, ks, phys, n) matches Ok(ls) ==> ls.len() == n,
    decreases n,
{
    if n > 0 {
        lemma_layers_len(defs, ks, phys, n - 1);
    }
}

impl Keymap {
    /// The keymap that layer definitions, a keyboard description and a combo definition file
    /// describe, each key placed by the physical layout of `render_opts`.
    pub fn from_parts(
        layer_defs: Vec<LayerDef>,
        keyboard_spec: &KeyboardSpec,
        combos_def: &str,
        render_opts: &RenderOpts,
    ) -> (r: Result<Keymap, KeymapError>)
        ensures
            match keymap_of(layer_defs@, *keyboard_spec, render_opts.physical_layout@, combos_def@) {
                Ok(km) => r matches Ok(k) && k@ == km,
                Err(e) => r == Err::<Keymap, KeymapError>(e),
            },
    {
        let ghost defs = layer_defs@;
        let ghost phys = render_opts.physical_layout@;
        let n = layer_defs.len();
        let mut rest = layer_defs;
        let mut layers: Vec<Layer> = Vec::new();
        let mut i: usize = 0;
        assert(defs.subrange(0, n as int) == defs);
        assert(layers@.map_values(|l: Layer| l@) =~= Seq::<LayerView>::empty());
        while i < n
            invariant
                n == defs.len(),
                defs == layer_defs@,
                i <= n,
                rest@ == defs.subrange(i as int, n as int),
                phys == render_opts.physical_layout@,
                layers_upto(defs, *keyboard_spec, phys, i as int) == Ok::<Seq<LayerView>, KeymapError>(
                    layers@.map_values(|l: Layer| l@),
                ),
            decreases n - i,
        {
            let def = rest.remove(0);
            assert(def == defs[i as int]);
            assert(rest@ =~= defs.subrange(i + 1, n as int));
            match Layer::new(def, keyboard_spec, render_opts) {
                Err(e) => {
                    proof {
                        assert(layers_upto(defs, *keyboard_spec, phys, i + 1) == Err::<
                            Seq<LayerView>,
                            KeymapError,
                        >(e));
                        lemma_layers_error_stays(defs, *keyboard_spec, phys, i + 1, n as int);
                    }
                    return Err(e);
                },
                Ok(layer) => {
                    let ghost before = layers@;
                    layers.push(layer);
                    assert(layers@.map_values(|l: Layer| l@) =~= before.map_values(|l: Layer| l@).push(
                        layers@.last()@,
                    ));
                },
            }
            i = i + 1;
        }
        proof {
            lemma_layers_len(defs, *keyboard_spec, phys, n as int);
        }
        if layers.len() == 0 {
            return Err(KeymapError::NoLayers);
        }
        assert(layers@.map_values(|l: Layer| l@)[0] == layers@[0]@);
        let combos = match parse_combos_from_source(combos_def, &layers[0]) {
            Ok(c) => c,
            Err(e) => {
                return Err(e);
            },
        };
        let km = Keymap { layers, combos };
        assert(km@.layers == layers_upto(defs, *keyboard_spec, phys, n as int).unwrap());
        Ok(km)
    }
}

/// The pattern of the keymap array of a keymap source; its group 1 holds the layers.
pub open spec fn keymaps_pattern() -> Seq<char> {
    "(?msx)const\\s+uint16_t\\s+PROGMEM\\s+keymaps\\[\\]\\[\\w+\\]\\[\\w+\\]\\s*=\\s*\\{(.+)};"@
}

/// The pattern of one layer: `[name] = LAYOUT(keys` up to a line that closes the parenthesis.
pub open spec fn layer_pattern() -> Seq<char> {
    "(?msx)\\[([\\w\\d_]+)\\]\\s*=\\s*([\\w\\d_]+)\\((.+?)^\\s*\\),?$"@
}

/// The layer that the captures of one layer match describe: its name, its layout and its
/// keys cut at commas and trimmed.
pub open spec fn layer_def_of(caps: Seq<Seq<char>>) -> (Seq<char>, Seq<char>, Seq<Seq<char>>) {
    (caps[0], caps[1], split_char(caps[2], ',').map_values(|k: Seq<char>| trim(k)))
}

pub open spec fn layer_def_view(d: LayerDef) -> (Seq<char>, Seq<char>, Seq<Seq<char>>) {
    (d.layer_id@, d.layout_id@, d.keys@.map_values(|k: KeyId| k@))
}

/// The layers that a keymap source defines, in order; none when it has no keymap array.
pub open spec fn layer_defs_of(src: Seq<char>) -> Seq<(Seq<char>, Seq<char>, Seq<Seq<char>>)> {
    match regex_group_of(keymaps_pattern(), src, 1) {
        None => seq![],
        Some(body) => regex_all_captures_of(layer_pattern(), trim(body), 3).map_values(
            |caps: Seq<Seq<char>>| layer_def_of(caps),
        ),
    }
}

/// The layers that a keymap source defines, in order.
pub fn parse_layers_from_source(src: &str) -> (r: Vec<LayerDef>)
    ensures
        r@.map_values(|d: LayerDef| layer_def_view(d)) == layer_defs_of(src@),
{
    let body = match regex_group(
        "(?msx)const\\s+uint16_t\\s+PROGMEM\\s+keymaps\\[\\]\\[\\w+\\]\\[\\w+\\]\\s*=\\s*\\{(.+)};",
        src,
        1,
    ) {
        Some(b) => b,
        None => {
            let r: Vec<LayerDef> = Vec::new();
            assert(r@.map_values(|d: LayerDef| layer_def_view(d)) =~= layer_defs_of(src@));
            return r;
        },
    };
    let layers_str = trimmed(body.as_str());
    assert(regex_group_of(keymaps_pattern(), src@, 1) == Some(body@));
    let all = regex_all_captures(
        "(?msx)\\[([\\w\\d_]+)\\]\\s*=\\s*([\\w\\d_]+)\\((.+?)^\\s*\\),?$",
        layers_str.as_str(),
        3,
    );
    let ghost caps_v = regex_all_captures_of(layer_pattern(), trim(body@), 3);
    let mut r: Vec<LayerDef> = Vec::new();
    let mut i: usize = 0;
    while i < all.len()
        invariant
            caps_v == regex_all_captures_of(layer_pattern(), trim(body@), 3),
            layer_defs_of(src@) == caps_v.map_values(|caps: Seq<Seq<char>>| layer_def_of(caps)),
            all@.len() == caps_v.len(),
            forall|k: int| 0 <= k < all@.len() ==> (#[trigger] all@[k])@.len() == 3,
            forall|k: int, g: int|
                0 <= k < all@.len() && 0 <= g < all@[k]@.len() ==> (#[trigger] all@[k]@[g])@ == caps_v[k][g],
            i <= all@.len(),
            r@.map_values(|d: LayerDef| layer_def_view(d)) == caps_v.subrange(0, i as int).map_values(
                |caps: Seq<Seq<char>>| layer_def_of(caps),
            ),
        decreases all@.len() - i,
    {
        let caps = &all[i];
        let pieces = split_on_char(caps[2].as_str(), ',');
        let mut keys: Vec<KeyId> = Vec::new();
        let mut j: usize = 0;
        while j < pieces.len()
            invariant
                j <= pieces@.len(),
                forall|k: int| 0 <= k < pieces@.len() ==> (#[trigger] pieces@[k])@ == split_char(caps@[2]@, ',')[k],
                pieces@.len() == split_char(caps@[2]@, ',').len(),
                keys@.map_values(|k: KeyId| k@) == split_char(caps@[2]@, ',').subrange(0, j as int).map_values(
                    |k: Seq<char>| trim(k),
                ),
            decreases pieces@.len() - j,
        {
            let ghost before = keys@;
            keys.push(KeyId(trimmed(pieces[j].as_str())));
            let ghost sp = split_char(caps@[2]@, ',');
            assert(keys@.map_values(|k: KeyId| k@) =~= before.map_values(|k: KeyId| k@).push(trim(sp[j as int])));
            assert(sp.subrange(0, j + 1).map_values(|k: Seq<char>| trim(k)) =~= sp.subrange(0, j as int).map_values(
                |k: Seq<char>| trim(k),
            ).push(trim(sp[j as int])));
            assert(keys@.map_values(|k: KeyId| k@) =~= split_char(caps@[2]@, ',').subrange(0, j + 1).map_values(
                |k: Seq<char>| trim(k),
            ));
            j = j + 1;
        }
        let def = LayerDef {
            layer_id: LayerId(caps[0].clone()),
            layout_id: crate::keymap::LayoutId(caps[1].clone()),
            keys,
        };
        let ghost before = r@;
        r.push(def);
        proof {
            assert(split_char(caps@[2]@, ',').subrange(0, j as int) == split_char(caps@[2]@, ','));
            assert(caps@[0]@ == caps_v[i as int][0]);
            assert(caps@[1]@ == caps_v[i as int][1]);
            assert(caps@[2]@ == caps_v[i as int][2]);
            assert(layer_def_view(def) == layer_def_of(caps_v[i as int]));
            assert(r@.map_values(|d: LayerDef| layer_def_view(d)) =~= before.map_values(|d: LayerDef| layer_def_view(d)).push(
                layer_def_view(def),
            ));
            assert(caps_v.subrange(0, i + 1).map_values(|caps: Seq<Seq<char>>| layer_def_of(caps)) =~= caps_v.subrange(
                0,
                i as int,
            ).map_values(|caps: Seq<Seq<char>>| layer_def_of(caps)).push(layer_def_of(caps_v[i as int])));
            assert(r@.map_values(|d: LayerDef| layer_def_view(d)) =~= caps_v.subrange(0, i + 1).map_values(
                |caps: Seq<Seq<char>>| layer_def_of(caps),
            ));
        }
        i = i + 1;
    }
    assert(caps_v.subrange(0, i as int) == caps_v);
    r
}

impl Keymap {
    /// The keymap that a keymap source, a keyboard description and a combo definition file
    /// describe.
    pub fn parse_from_source(
        keymap_c: &str,
        keyboard_spec: &KeyboardSpec,
        combos_def: &str,
        render_opts: &RenderOpts,
    ) -> (r: Result<Keymap, KeymapError>)
        ensures
            exists|defs: Seq<LayerDef>|
                defs.map_values(|d: LayerDef| layer_def_view(d)) == layer_defs_of(keymap_c@) && match #[trigger] keymap_of(
                    defs,
                    *keyboard_spec,
                    render_opts.physical_layout@,
                    combos_def@,
                ) {
                    Ok(km) => r matches Ok(k) && k@ == km,
                    Err(e) => r == Err::<Keymap, KeymapError>(e),
                },
    {
        let defs = parse_layers_from_source(keymap_c);
        let ghost dv = defs@;
        let r = Keymap::from_parts(defs, keyboard_spec, combos_def, render_opts);
        assert(dv.map_values(|d: LayerDef| layer_def_view(d)) == layer_defs_of(keymap_c@));
        assert(keymap_of(dv, *keyboard_spec, render_opts.physical_layout@, combos_def@) == keymap_of(
            dv,
            *keyboard_spec,
            render_opts.physical_layout@,
            combos_def@,
        ));
        r
    }
}

} // verus!
