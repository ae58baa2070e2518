//! Variable resolution in layers: extension default ← global ← preset ← game.
//!
//! Produces, per extension, the variables for the launch builder and the details
//! of each field (effective value, provenance, enabled).

use crate::config::{stored, GameConfig, GameConfigView, Preset, PresetView};
use crate::data::Duplicate;
use crate::ordered::{distinct, law_put, put, value_of, Entries, OrderedMap};
use crate::schema::{
    fields_of, id_of, is_global_name, Extension, ExtensionView, FieldType, UiField, UiFieldView,
};
use crate::text::{chars_of, join, joined, strip_prefix};
use crate::value::{plain_text, value_to_string, Json, ValueView};
use crate::variables::{
    bare_name, field_value, nothing, resolve_field, ResolvedVar, ResolvedVarView, VarStore,
    VarStoreView, GLOBAL_PREFIX,
};
use vstd::prelude::*;

verus! {

/// Where a field's effective value came from (lowest to highest priority).
#[derive(Debug, Clone, Copy, PartialEq, Eq, Structural)]
pub enum Provenance {
    Default,
    Global,
    Preset,
    Game,
}

/// A field with its effective value.
#[derive(Debug)]
pub struct ResolvedField {
    pub var: ResolvedVar,
    pub provenance: Provenance,
    /// Whether the field is on (toggle true, or the enable-checkbox on).
    pub enabled: bool,
    /// Effective stored value (`None` = no value, and no default).
    pub raw: Option<Json>,
}

/// A [`ResolvedField`] as contracts speak of it.
#[verifier::ext_equal]
pub struct ResolvedFieldView {
    pub var: ResolvedVarView,
    pub provenance: Provenance,
    pub enabled: bool,
    pub raw: Option<ValueView>,
}

impl DeepView for ResolvedField {
    type V = ResolvedFieldView;

    open spec fn deep_view(&self) -> ResolvedFieldView {
        ResolvedFieldView {
            var: self.var.deep_view(),
            provenance: self.provenance,
            enabled: self.enabled,
            raw: self.raw.deep_view(),
        }
    }
}

impl Duplicate for ResolvedField {
    fn duplicate(&self) -> (r: Self) {
        ResolvedField {
            var: self.var.duplicate(),
            provenance: self.provenance,
            enabled: self.enabled,
            raw: self.raw.duplicate(),
        }
    }
}

impl Clone for ResolvedField {
    fn clone(&self) -> (r: Self)
        ensures
            r.deep_view() == self.deep_view(),
    {
        self.duplicate()
    }
}

/// The resolved fields of one extension.
#[derive(Debug)]
pub struct ExtResolution {
    /// The variables that are not global.
    pub local: OrderedMap<ResolvedVar>,
    /// All fields by variable, in declaration order.
    pub fields: OrderedMap<ResolvedField>,
}

/// An [`ExtResolution`] as contracts speak of it.
#[verifier::ext_equal]
pub struct ExtResolutionView {
    pub local: Entries<ResolvedVarView>,
    pub fields: Entries<ResolvedFieldView>,
}

impl DeepView for ExtResolution {
    type V = ExtResolutionView;

    open spec fn deep_view(&self) -> ExtResolutionView {
        ExtResolutionView {
            local: self.local.deep_view(),
            fields: self.fields.deep_view(),
        }
    }
}

impl Duplicate for ExtResolution {
    fn duplicate(&self) -> (r: Self) {
        ExtResolution {
            local: self.local.duplicate(),
            fields: self.fields.duplicate(),
        }
    }
}

impl Clone for ExtResolution {
    fn clone(&self) -> (r: Self)
        ensures
            r.deep_view() == self.deep_view(),
    {
        self.duplicate()
    }
}

/// The resolved fields of all extensions.
#[derive(Debug)]
pub struct Resolution {
    /// The shared global variables, by bare name.
    pub global: OrderedMap<ResolvedVar>,
    /// Each extension's resolution, by extension id.
    pub exts: OrderedMap<ExtResolution>,
}

/// A [`Resolution`] as contracts speak of it.
#[verifier::ext_equal]
pub struct ResolutionView {
    pub global: Entries<ResolvedVarView>,
    pub exts: Entries<ExtResolutionView>,
}

impl DeepView for Resolution {
    type V = ResolutionView;

    open spec fn deep_view(&self) -> ResolutionView {
        ResolutionView {
            global: self.global.deep_view(),
            exts: self.exts.deep_view(),
        }
    }
}

impl Duplicate for Resolution {
    fn duplicate(&self) -> (r: Self) {
        Resolution {
            global: self.global.duplicate(),
            exts: self.exts.duplicate(),
        }
    }
}

impl Clone for Resolution {
    fn clone(&self) -> (r: Self)
        ensures
            r.deep_view() == self.deep_view(),
    {
        self.duplicate()
    }
}

// ---- One field -------------------------------------------------------------

/// The layers that a value can be stored in, besides the extension's default.
pub struct LayersView {
    pub game: Option<GameConfigView>,
    pub preset: Option<PresetView>,
    pub global: Option<PresetView>,
}

/// A module's variable.
pub struct SlotView {
    pub author: Seq<char>,
    pub name: Seq<char>,
    pub var: Seq<char>,
}

/// What the game stores for a variable.
pub open spec fn in_game(l: LayersView, s: SlotView) -> Option<ValueView> {
    match l.game {
        Some(g) => stored(g.config.modules.authors, s.author, s.name, s.var),
        None => None,
    }
}

/// What a preset stores for a variable.
pub open spec fn in_preset(p: Option<PresetView>, s: SlotView) -> Option<ValueView> {
    match p {
        Some(p) => stored(p.modules, s.author, s.name, s.var),
        None => None,
    }
}

/// The effective value of a variable and where it came from: the game decides
/// before the preset, the preset before the global scope, and the default comes
/// last.
pub open spec fn layered(l: LayersView, s: SlotView, default: Option<ValueView>) -> (
    Option<ValueView>,
    Provenance,
) {
    match in_game(l, s) {
        Some(v) => (Some(v), Provenance::Game),
        None => match in_preset(l.preset, s) {
            Some(v) => (Some(v), Provenance::Preset),
            None => match in_preset(l.global, s) {
                Some(v) => (Some(v), Provenance::Global),
                None => (default, Provenance::Default),
            },
        },
    }
}

/// The strings of a list that are not empty, in order.
pub open spec fn texts_in(a: Seq<ValueView>) -> Seq<Seq<char>>
    decreases a.len(),
{
    if a.len() == 0 {
        seq![]
    } else {
        match a.last() {
            ValueView::String(s) => if s.len() > 0 {
                texts_in(a.drop_last()).push(s)
            } else {
                texts_in(a.drop_last())
            },
            _ => texts_in(a.drop_last()),
        }
    }
}

/// The entries of a list field.
pub open spec fn list_entries(raw: Option<ValueView>) -> Seq<Seq<char>> {
    match raw {
        Some(ValueView::Array(a)) => texts_in(a),
        _ => seq![],
    }
}

/// Whether a field is on, and the text of its value.
pub open spec fn field_input(field_type: FieldType, raw: Option<ValueView>) -> (
    bool,
    Option<Seq<char>>,
) {
    match field_type {
        FieldType::Toggle => {
            let on = raw == Some(ValueView::Bool(true));
            (
                on,
                Some(
                    if on {
                        "true"@
                    } else {
                        "false"@
                    },
                ),
            )
        },
        FieldType::MultiString => if list_entries(raw).len() == 0 {
            (false, None)
        } else {
            (true, Some(joined(list_entries(raw), "\n"@)))
        },
        _ => match raw {
            None => (false, None),
            Some(ValueView::Null) => (false, None),
            Some(v) => (true, Some(plain_text(v))),
        },
    }
}

/// A field from its effective value.
pub open spec fn field_from(
    field_type: FieldType,
    raw: Option<ValueView>,
    provenance: Provenance,
) -> ResolvedFieldView {
    let (enabled, text) = field_input(field_type, raw);
    ResolvedFieldView { var: field_value(field_type, enabled, text), provenance, enabled, raw }
}

/// A field with its effective value.
pub open spec fn field_resolved(
    f: UiFieldView,
    author: Seq<char>,
    name: Seq<char>,
    l: LayersView,
) -> ResolvedFieldView {
    let (raw, provenance) = layered(l, SlotView { author, name, var: f.variable }, f.default);
    field_from(f.field_type, raw, provenance)
}

fn entries_of(raw: &Option<Json>) -> (r: Vec<String>)
    ensures
        r.deep_view() == list_entries(raw.deep_view()),
{
    let mut out: Vec<String> = Vec::new();
    assert(out.deep_view() =~= seq![]);
    match raw {
        Some(Json::Array(a)) => {
            let ghost d = raw.deep_view()->0->Array_0;
            let mut i: usize = 0;
            assert(out.deep_view() =~= texts_in(d.take(0)));
            while i < a.len()
                invariant
                    d.len() == a@.len(),
                    forall|j: int| 0 <= j < a@.len() ==> #[trigger] d[j] == a@[j].deep_view(),
                    i <= a@.len(),
                    out.deep_view() == texts_in(d.take(i as int)),
                decreases a@.len() - i,
            {
                assert(d.take(i + 1).drop_last() =~= d.take(i as int));
                assert(d.take(i + 1).last() == d[i as int]);
                match &a[i] {
                    Json::String(s) => {
                        if chars_of(s.as_str()).len() > 0 {
                            let ghost before = out.deep_view();
                            out.push(s.clone());
                            assert(out.deep_view() =~= before.push(s@));
                        }
                    },
                    _ => {},
                }
                i += 1;
            }
            assert(d.take(d.len() as int) =~= d);
        },
        _ => {},
    }
    out
}

/// Resolves a single field's effective value across the layers.
pub fn resolve_one(
    field: &UiField,
    author: &str,
    name: &str,
    game: Option<&GameConfig>,
    preset: Option<&Preset>,
    global: Option<&Preset>,
) -> (r: ResolvedField)
    ensures
        r.deep_view() == field_resolved(
            field.deep_view(),
            author@,
            name@,
            LayersView {
                game: game.deep_view(),
                preset: preset.deep_view(),
                global: global.deep_view(),
            },
        ),
{
    let var = field.variable.as_str();
    let from_game = match game {
        Some(g) => g.get_value(author, name, var),
        None => None,
    };
    let from_preset = match preset {
        Some(p) => p.get_value(author, name, var),
        None => None,
    };
    let from_global = match global {
        Some(p) => p.get_value(author, name, var),
        None => None,
    };
    let (raw, provenance) = if let Some(v) = from_game {
        (Some(v.duplicate()), Provenance::Game)
    } else if let Some(v) = from_preset {
        (Some(v.duplicate()), Provenance::Preset)
    } else if let Some(v) = from_global {
        (Some(v.duplicate()), Provenance::Global)
    } else {
        (field.default.duplicate(), Provenance::Default)
    };
    let ghost l = LayersView {
        game: game.deep_view(),
        preset: preset.deep_view(),
        global: global.deep_view(),
    };
    assert((raw.deep_view(), provenance) == layered(
        l,
        SlotView { author: author@, name: name@, var: var@ },
        field.deep_view().default,
    ));
    let (enabled, text): (bool, Option<String>) = match field.field_type {
        FieldType::Toggle => {
            let on = match &raw {
                Some(Json::Bool(b)) => *b,
                _ => false,
            };
            (
                on,
                Some(
                    if on {
                        "true".to_owned()
                    } else {
                        "false".to_owned()
                    },
                ),
            )
        },
        FieldType::MultiString => {
            let entries = entries_of(&raw);
            if entries.len() == 0 {
                (false, None)
            } else {
                (true, Some(join(&entries, "\n")))
            }
        },
        _ => match &raw {
            None => (false, None),
            Some(Json::Null) => (false, None),
            Some(v) => (true, Some(value_to_string(v))),
        },
    };
    assert((enabled, text.deep_view()) == field_input(field.field_type, raw.deep_view()));
    let text_ref = match &text {
        Some(t) => Some(t.as_str()),
        None => None,
    };
    let var = resolve_field(field, enabled, text_ref);
    ResolvedField { var, provenance, enabled, raw }
}

// ---- All fields ------------------------------------------------------------

/// What has been resolved of one extension, and of the global variables.
pub struct Partial {
    pub ext: ExtResolutionView,
    pub global: Entries<ResolvedVarView>,
}

/// One more field: a global one is published under its bare name, any other is
/// local to its extension.
pub open spec fn field_added(p: Partial, variable: Seq<char>, rf: ResolvedFieldView) -> Partial {
    let fields = put(p.ext.fields, variable, rf);
    if is_global_name(variable) {
        Partial {
            ext: ExtResolutionView { fields, ..p.ext },
            global: put(p.global, bare_name(variable), rf.var),
        }
    } else {
        Partial {
            ext: ExtResolutionView { fields, local: put(p.ext.local, variable, rf.var) },
            ..p
        }
    }
}

/// The fields of an extension, in order.
pub open spec fn fields_added(
    fields: Seq<UiFieldView>,
    author: Seq<char>,
    name: Seq<char>,
    l: LayersView,
    global: Entries<ResolvedVarView>,
) -> Partial
    decreases fields.len(),
{
    if fields.len() == 0 {
        Partial { ext: ExtResolutionView { local: seq![], fields: seq![] }, global }
    } else {
        field_added(
            fields_added(fields.drop_last(), author, name, l, global),
            fields.last().variable,
            field_resolved(fields.last(), author, name, l),
        )
    }
}

/// The extensions, in order.
pub open spec fn resolved(exts: Seq<ExtensionView>, l: LayersView) -> ResolutionView
    decreases exts.len(),
{
    if exts.len() == 0 {
        ResolutionView { global: seq![], exts: seq![] }
    } else {
        let r = resolved(exts.drop_last(), l);
        let e = exts.last();
        let p = fields_added(fields_of(e.ui), e.meta.author, e.meta.name, l, r.global);
        ResolutionView { global: p.global, exts: put(r.exts, id_of(e.meta), p.ext) }
    }
}

fn resolve_fields(
    ext: &Extension,
    game: Option<&GameConfig>,
    preset: Option<&Preset>,
    global: Option<&Preset>,
    shared: &mut OrderedMap<ResolvedVar>,
) -> (r: ExtResolution)
    ensures
        (Partial { ext: r.deep_view(), global: final(shared).deep_view() }) == fields_added(
            fields_of(ext.deep_view().ui),
            ext.deep_view().meta.author,
            ext.deep_view().meta.name,
            LayersView {
                game: game.deep_view(),
                preset: preset.deep_view(),
                global: global.deep_view(),
            },
            old(shared).deep_view(),
        ),
{
    let author = ext.meta.author.as_str();
    let name = ext.meta.name.as_str();
    let fields = ext.fields();
    let ghost d = fields.deep_view();
    let ghost l = LayersView {
        game: game.deep_view(),
        preset: preset.deep_view(),
        global: global.deep_view(),
    };
    let ghost start = shared.deep_view();
    let mut local: OrderedMap<ResolvedVar> = OrderedMap::new();
    let mut details: OrderedMap<ResolvedField> = OrderedMap::new();
    let mut i: usize = 0;
    assert(d.take(0).len() == 0);
    assert(local.deep_view() =~= seq![]);
    assert(details.deep_view() =~= seq![]);
    while i < fields.len()
        invariant
            d == fields.deep_view(),
            l == (LayersView {
                game: game.deep_view(),
                preset: preset.deep_view(),
                global: global.deep_view(),
            }),
            i <= fields@.len(),
            fields_added(d.take(i as int), author@, name@, l, start) == (Partial {
                ext: ExtResolutionView {
                    local: local.deep_view(),
                    fields: details.deep_view(),
                },
                global: shared.deep_view(),
            }),
        decreases fields@.len() - i,
    {
        let field: &UiField = fields[i];
        assert(d.take(i + 1).drop_last() =~= d.take(i as int));
        assert(d.take(i + 1).last() == field.deep_view());
        let rf = resolve_one(field, author, name, game, preset, global);
        if field.is_global() {
            let bare = match strip_prefix(field.variable.as_str(), GLOBAL_PREFIX) {
                Some(b) => b,
                None => field.variable.clone(),
            };
            shared.insert(bare, rf.var.duplicate());
        } else {
            local.insert(field.variable.clone(), rf.var.duplicate());
        }
        details.insert(field.variable.clone(), rf);
        i += 1;
    }
    assert(d.take(d.len() as int) =~= d);
    ExtResolution { local, fields: details }
}

/// Resolves all applicable extensions across the layers: extension default ←
/// global ← preset ← game.
pub fn resolve(
    exts: &[Extension],
    game: Option<&GameConfig>,
    preset: Option<&Preset>,
    global: Option<&Preset>,
) -> (r: Resolution)
    ensures
        r.deep_view() == resolved(
            exts.deep_view(),
            LayersView {
                game: game.deep_view(),
                preset: preset.deep_view(),
                global: global.deep_view(),
            },
        ),
{
    let ghost d = exts.deep_view();
    let ghost l = LayersView {
        game: game.deep_view(),
        preset: preset.deep_view(),
        global: global.deep_view(),
    };
    let mut shared: OrderedMap<ResolvedVar> = OrderedMap::new();
    let mut out: OrderedMap<ExtResolution> = OrderedMap::new();
    let mut i: usize = 0;
    assert(d.take(0).len() == 0);
    assert(shared.deep_view() =~= seq![]);
    assert(out.deep_view() =~= seq![]);
    while i < exts.len()
        invariant
            d == exts.deep_view(),
            l == (LayersView {
                game: game.deep_view(),
                preset: preset.deep_view(),
                global: global.deep_view(),
            }),
            i <= exts@.len(),
            resolved(d.take(i as int), l) == (ResolutionView {
                global: shared.deep_view(),
                exts: out.deep_view(),
            }),
        decreases exts@.len() - i,
    {
        let ext = &exts[i];
        assert(d.take(i + 1).drop_last() =~= d.take(i as int));
        assert(d.take(i + 1).last() == ext.deep_view());
        let res = resolve_fields(ext, game, preset, global, &mut shared);
        out.insert(ext.id(), res);
        i += 1;
    }
    assert(d.take(d.len() as int) =~= d);
    Resolution { global: shared, exts: out }
}

impl ResolutionView {
    /// The variables that one extension sees: its own and the global ones.
    pub open spec fn store_for(self, ext_id: Seq<char>) -> VarStoreView {
        VarStoreView {
            local: match value_of(self.exts, ext_id) {
                Some(e) => e.local,
                None => seq![],
            },
            global: self.global,
        }
    }
}

impl Resolution {
    /// Builds the [`VarStore`] that one extension is evaluated with.
    pub fn var_store(&self, ext_id: &str) -> (r: VarStore)
        ensures
            r.deep_view() == self.deep_view().store_for(ext_id@),
    {
        let mut store = VarStore::with_global(self.global.duplicate());
        match self.exts.get(ext_id) {
            Some(ext) => {
                let ghost d = ext.local.deep_view();
                let n: usize = ext.local.len();
                let mut i: usize = 0;
                assert(d.take(0) =~= seq![]);
                while i < n
                    invariant
                        d == ext.local.deep_view(),
                        i <= n == d.len(),
                        distinct(d),
                        store.deep_view() == (VarStoreView {
                            local: d.take(i as int),
                            global: self.global.deep_view(),
                        }),
                    decreases n - i,
                {
                    proof {
                        assert forall|j: int| 0 <= j < i implies (#[trigger] d.take(i as int)[j]).0
                            != d[i as int].0 by {
                            assert(d[j].0 != d[i as int].0);
                        }
                    }
                    store.insert_local(ext.local.key_at(i).as_str(), ext.local.value_at(i).duplicate());
                    assert(d.take(i + 1) =~= d.take(i as int).push(d[i as int]));
                    i += 1;
                }
                assert(d.take(n as int) =~= d);
            },
            None => {},
        }
        store
    }
}

// ---- Laws ------------------------------------------------------------------

/// The highest layer that stores a value decides: game over preset over global
/// over the extension's default.
pub proof fn law_higher_layers_win(l: LayersView, s: SlotView, default: Option<ValueView>)
    ensures
        in_game(l, s) matches Some(v) ==> layered(l, s, default) == (Some(v), Provenance::Game),
        in_game(l, s) is None ==> (in_preset(l.preset, s) matches Some(v) ==> layered(l, s, default)
            == (Some(v), Provenance::Preset)),
        in_game(l, s) is None && in_preset(l.preset, s) is None ==> (in_preset(l.global, s) matches
            Some(v) ==> layered(l, s, default) == (Some(v), Provenance::Global)),
        in_game(l, s) is None && in_preset(l.preset, s) is None && in_preset(l.global, s) is None
            ==> layered(l, s, default) == (default, Provenance::Default),
{
}

/// A stored `null` turns a field off, whatever the layers below hold.
pub proof fn law_null_disables(
    f: UiFieldView,
    author: Seq<char>,
    name: Seq<char>,
    l: LayersView,
)
    requires
        in_game(l, SlotView { author, name, var: f.variable }) == Some(ValueView::Null),
    ensures
        !field_resolved(f, author, name, l).enabled,
        !field_resolved(f, author, name, l).var.truthy,
        field_resolved(f, author, name, l).provenance == Provenance::Game,
        f.field_type != FieldType::Toggle ==> field_resolved(f, author, name, l).var == nothing(),
{
    reveal_strlit("true");
    reveal_strlit("false");
    assert("true"@.len() != "false"@.len());
}

/// A toggle is on exactly where its effective value is `true`, and every other
/// field is on exactly where its variable is truthy or its value is the empty
/// text.
pub proof fn law_truthy_is_enabled(field_type: FieldType, raw: Option<ValueView>, p: Provenance)
    ensures
        field_from(field_type, raw, p).var.truthy ==> field_from(field_type, raw, p).enabled,
        field_type == FieldType::Toggle ==> field_from(field_type, raw, p).var.truthy == (raw
            == Some(ValueView::Bool(true))),
        field_from(field_type, raw, p).enabled && !field_from(field_type, raw, p).var.truthy ==> (
        field_input(field_type, raw).1 matches Some(t) && t.len() == 0),
{
    reveal_strlit("true");
    reveal_strlit("false");
    assert("true"@.len() != "false"@.len());
}

/// Global variables are shared: every extension reads the same value under a
/// `global:` name.
pub proof fn law_global_is_shared(r: ResolutionView, a: Seq<char>, b: Seq<char>, name: Seq<char>)
    requires
        is_global_name(name),
    ensures
        r.store_for(a).lookup(name) == r.store_for(b).lookup(name),
{
}

/// Two global names with one bare name are one.
proof fn lemma_bare_names(a: Seq<char>, b: Seq<char>)
    requires
        is_global_name(a),
        is_global_name(b),
        bare_name(a) == bare_name(b),
    ensures
        a == b,
{
    let p = GLOBAL_PREFIX@;
    assert(a =~= p + a.skip(p.len() as int));
    assert(b =~= p + b.skip(p.len() as int));
}

/// No field behind the first `from` is for `variable`.
pub open spec fn none_from(fields: Seq<UiFieldView>, from: int, variable: Seq<char>) -> bool {
    forall|k: int| from <= k < fields.len() ==> (#[trigger] fields[k]).variable != variable
}

/// What the fields of an extension come to keeps what is not theirs, and holds the
/// last field of each name.
proof fn lemma_fields_added(
    fields: Seq<UiFieldView>,
    author: Seq<char>,
    name: Seq<char>,
    l: LayersView,
    global: Entries<ResolvedVarView>,
    j: int,
    variable: Seq<char>,
)
    requires
        distinct(global),
        -1 <= j < fields.len(),
        j >= 0 ==> fields[j].variable == variable,
        none_from(fields, j + 1, variable),
    ensures
        ({
            let p = fields_added(fields, author, name, l, global);
            let rf = field_resolved(fields[j], author, name, l);
            &&& distinct(p.ext.local)
            &&& distinct(p.ext.fields)
            &&& distinct(p.global)
            &&& j >= 0 ==> value_of(p.ext.fields, variable) == Some(rf)
            &&& j >= 0 && !is_global_name(variable) ==> value_of(p.ext.local, variable) == Some(
                rf.var,
            )
            &&& j >= 0 && is_global_name(variable) ==> value_of(p.global, bare_name(variable))
                == Some(rf.var)
            &&& j < 0 && is_global_name(variable) ==> value_of(p.global, bare_name(variable))
                == value_of(global, bare_name(variable))
        }),
    decreases fields.len(),
{
    if fields.len() > 0 {
        let n = fields.len() - 1;
        let init = fields.drop_last();
        let last = fields.last();
        let rf = field_resolved(last, author, name, l);
        if j == n {
            lemma_fields_distinct(init, author, name, l, global);
        } else {
            assert forall|i: int| j + 1 <= i < init.len() implies (#[trigger] init[i]).variable
                != variable by {
                assert(init[i] == fields[i]);
            }
            lemma_fields_added(init, author, name, l, global, j, variable);
            assert(fields[n].variable != variable);
        }
        let before = fields_added(init, author, name, l, global);
        law_put(before.ext.fields, last.variable, rf, variable);
        law_put(before.ext.local, last.variable, rf.var, variable);
        law_put(before.global, bare_name(last.variable), rf.var, bare_name(variable));
        if is_global_name(last.variable) && is_global_name(variable) && bare_name(last.variable)
            == bare_name(variable) {
            lemma_bare_names(last.variable, variable);
        }
    }
}

proof fn lemma_fields_distinct(
    fields: Seq<UiFieldView>,
    author: Seq<char>,
    name: Seq<char>,
    l: LayersView,
    global: Entries<ResolvedVarView>,
)
    requires
        distinct(global),
    ensures
        ({
            let p = fields_added(fields, author, name, l, global);
            distinct(p.ext.local) && distinct(p.ext.fields) && distinct(p.global)
        }),
    decreases fields.len(),
{
    if fields.len() > 0 {
        let last = fields.last();
        let rf = field_resolved(last, author, name, l);
        lemma_fields_distinct(fields.drop_last(), author, name, l, global);
        let before = fields_added(fields.drop_last(), author, name, l, global);
        law_put(before.ext.fields, last.variable, rf, last.variable);
        law_put(before.ext.local, last.variable, rf.var, last.variable);
        law_put(before.global, bare_name(last.variable), rf.var, bare_name(last.variable));
    }
}

/// A field is resolved as its layers say, and its own extension reads it under its
/// name: where no later extension has the same id, and no later field of the
/// extension the same name.
pub proof fn law_fields_are_seen(exts: Seq<ExtensionView>, l: LayersView, i: int, j: int)
    requires
        0 <= i < exts.len(),
        0 <= j < fields_of(exts[i].ui).len(),
        forall|k: int| i < k < exts.len() ==> id_of((#[trigger] exts[k]).meta) != id_of(exts[i].meta),
        none_from(fields_of(exts[i].ui), j + 1, fields_of(exts[i].ui)[j].variable),
    ensures
        ({
            let e = exts[i];
            let f = fields_of(e.ui)[j];
            let rf = field_resolved(f, e.meta.author, e.meta.name, l);
            let r = resolved(exts, l);
            &&& value_of(r.exts, id_of(e.meta)) matches Some(res) && value_of(
                res.fields,
                f.variable,
            ) == Some(rf)
            &&& !is_global_name(f.variable) ==> r.store_for(id_of(e.meta)).lookup(f.variable)
                == Some(rf.var)
            &&& distinct(r.exts)
            &&& distinct(r.global)
        }),
    decreases exts.len(),
{
    let e = exts[i];
    let f = fields_of(e.ui)[j];
    let n = exts.len() - 1;
    let init = exts.drop_last();
    let last = exts.last();
    let before = resolved(init, l);
    lemma_resolved_distinct(init, l);
    let fields = fields_of(last.ui);
    let p = fields_added(fields, last.meta.author, last.meta.name, l, before.global);
    lemma_fields_distinct(fields, last.meta.author, last.meta.name, l, before.global);
    law_put(before.exts, id_of(last.meta), p.ext, id_of(e.meta));
    if i == n {
        lemma_fields_added(
            fields,
            last.meta.author,
            last.meta.name,
            l,
            before.global,
            j,
            f.variable,
        );
    } else {
        assert(init[i] == e);
        assert forall|k: int| i < k < init.len() implies id_of((#[trigger] init[k]).meta) != id_of(
            init[i].meta,
        ) by {
            assert(init[k] == exts[k]);
        }
        law_fields_are_seen(init, l, i, j);
        assert(id_of(exts[n].meta) != id_of(e.meta));
    }
}

proof fn lemma_resolved_distinct(exts: Seq<ExtensionView>, l: LayersView)
    ensures
        distinct(resolved(exts, l).exts),
        distinct(resolved(exts, l).global),
    decreases exts.len(),
{
    if exts.len() > 0 {
        let last = exts.last();
        let before = resolved(exts.drop_last(), l);
        lemma_resolved_distinct(exts.drop_last(), l);
        let fields = fields_of(last.ui);
        let p = fields_added(fields, last.meta.author, last.meta.name, l, before.global);
        lemma_fields_distinct(fields, last.meta.author, last.meta.name, l, before.global);
        law_put(before.exts, id_of(last.meta), p.ext, id_of(last.meta));
    }
}

/// A global field is published: every extension reads its value under its name,
/// where no later field publishes the same name.
pub proof fn law_global_is_published(
    exts: Seq<ExtensionView>,
    l: LayersView,
    i: int,
    j: int,
    reader: Seq<char>,
)
    requires
        0 <= i < exts.len(),
        0 <= j < fields_of(exts[i].ui).len(),
        is_global_name(fields_of(exts[i].ui)[j].variable),
        none_from(fields_of(exts[i].ui), j + 1, fields_of(exts[i].ui)[j].variable),
        forall|k: int|
            i < k < exts.len() ==> none_from(
                fields_of((#[trigger] exts[k]).ui),
                0,
                fields_of(exts[i].ui)[j].variable,
            ),
    ensures
        ({
            let e = exts[i];
            let f = fields_of(e.ui)[j];
            resolved(exts, l).store_for(reader).lookup(f.variable) == Some(
                field_resolved(f, e.meta.author, e.meta.name, l).var,
            )
        }),
    decreases exts.len(),
{
    let e = exts[i];
    let f = fields_of(e.ui)[j];
    let n = exts.len() - 1;
    let init = exts.drop_last();
    let last = exts.last();
    let before = resolved(init, l);
    lemma_resolved_distinct(init, l);
    let fields = fields_of(last.ui);
    if i == n {
        lemma_fields_added(
            fields,
            last.meta.author,
            last.meta.name,
            l,
            before.global,
            j,
            f.variable,
        );
    } else {
        assert(init[i] == e);
        assert forall|k: int| i < k < init.len() implies none_from(
            fields_of((#[trigger] init[k]).ui),
            0,
            f.variable,
        ) by {
            assert(init[k] == exts[k]);
        }
        law_global_is_published(init, l, i, j, reader);
        assert(none_from(fields_of(exts[n].ui), 0, f.variable));
        lemma_fields_added(
            fields,
            last.meta.author,
            last.meta.name,
            l,
            before.global,
            -1,
            f.variable,
        );
    }
}

proof fn lemma_only_own(
    fields: Seq<UiFieldView>,
    author: Seq<char>,
    name: Seq<char>,
    l: LayersView,
    global: Entries<ResolvedVarView>,
    variable: Seq<char>,
)
    requires
        distinct(global),
        none_from(fields, 0, variable),
    ensures
        value_of(fields_added(fields, author, name, l, global).ext.local, variable) is None,
        value_of(fields_added(fields, author, name, l, global).ext.fields, variable) is None,
    decreases fields.len(),
{
    if fields.len() > 0 {
        let init = fields.drop_last();
        let last = fields.last();
        let rf = field_resolved(last, author, name, l);
        assert(fields[fields.len() - 1].variable != variable);
        assert forall|k: int| 0 <= k < init.len() implies (#[trigger] init[k]).variable
            != variable by {
            assert(init[k] == fields[k]);
        }
        lemma_only_own(init, author, name, l, global, variable);
        lemma_fields_distinct(init, author, name, l, global);
        let before = fields_added(init, author, name, l, global);
        law_put(before.ext.fields, last.variable, rf, variable);
        law_put(before.ext.local, last.variable, rf.var, variable);
    }
}

/// An extension has the variables of its fields and no others: what no field of it
/// is for, it does not read. One that is not there reads nothing of its own.
pub proof fn law_only_own_variables(
    exts: Seq<ExtensionView>,
    l: LayersView,
    i: int,
    variable: Seq<char>,
    other: Seq<char>,
)
    requires
        0 <= i < exts.len(),
        forall|k: int| i < k < exts.len() ==> id_of((#[trigger] exts[k]).meta) != id_of(exts[i].meta),
        none_from(fields_of(exts[i].ui), 0, variable),
        !is_global_name(variable),
        forall|k: int| 0 <= k < exts.len() ==> id_of((#[trigger] exts[k]).meta) != other,
    ensures
        resolved(exts, l).store_for(id_of(exts[i].meta)).lookup(variable) is None,
        resolved(exts, l).store_for(other).lookup(variable) is None,
        value_of(resolved(exts, l).exts, other) is None,
    decreases exts.len(),
{
    let init = exts.drop_last();
    let last = exts.last();
    let before = resolved(init, l);
    let fields = fields_of(last.ui);
    let p = fields_added(fields, last.meta.author, last.meta.name, l, before.global);
    let n = exts.len() - 1;
    lemma_resolved_distinct(init, l);
    law_put(before.exts, id_of(last.meta), p.ext, id_of(exts[i].meta));
    law_put(before.exts, id_of(last.meta), p.ext, other);
    assert(id_of(exts[n].meta) != other);
    lemma_none_of(init, l, other);
    if i == n {
        lemma_only_own(fields, last.meta.author, last.meta.name, l, before.global, variable);
    } else {
        assert(init[i] == exts[i]);
        assert(id_of(exts[n].meta) != id_of(exts[i].meta));
        assert forall|k: int| i < k < init.len() implies id_of((#[trigger] init[k]).meta) != id_of(
            init[i].meta,
        ) by {
            assert(init[k] == exts[k]);
        }
        assert forall|k: int| 0 <= k < init.len() implies id_of((#[trigger] init[k]).meta)
            != other by {
            assert(init[k] == exts[k]);
        }
        law_only_own_variables(init, l, i, variable, other);
    }
}

proof fn lemma_none_of(exts: Seq<ExtensionView>, l: LayersView, other: Seq<char>)
    ensures
        (forall|k: int| 0 <= k < exts.len() ==> id_of((#[trigger] exts[k]).meta) != other)
            ==> value_of(resolved(exts, l).exts, other) is None,
    decreases exts.len(),
{
    if exts.len() > 0 {
        let init = exts.drop_last();
        let last = exts.last();
        lemma_none_of(init, l, other);
        lemma_resolved_distinct(init, l);
        let before = resolved(init, l);
        let p = fields_added(
            fields_of(last.ui),
            last.meta.author,
            last.meta.name,
            l,
            before.global,
        );
        law_put(before.exts, id_of(last.meta), p.ext, other);
        if forall|k: int| 0 <= k < exts.len() ==> id_of((#[trigger] exts[k]).meta) != other {
            assert(id_of(exts[exts.len() - 1].meta) != other);
            assert forall|k: int| 0 <= k < init.len() implies id_of((#[trigger] init[k]).meta)
                != other by {
                assert(init[k] == exts[k]);
            }
        }
    }
}

/// The variables that an extension reads are its own, and the global ones.
pub proof fn law_store(r: ResolutionView, id: Seq<char>)
    ensures
        r.store_for(id).global == r.global,
        value_of(r.exts, id) matches Some(e) ==> r.store_for(id).local == e.local,
        value_of(r.exts, id) is None ==> r.store_for(id).local.len() == 0,
{
}

} // verus!
