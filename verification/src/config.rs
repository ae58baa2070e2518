//! Configuration: the general settings, the presets and the games, and what is
//! stored in them.
//!
//! Storage convention for variable values:
//! - present non-null value = explicit override (enabled, with that value)
//! - `null`                 = explicitly disabled (overrides an inherited-on)
//! - absent                 = inherit from the layer below
//!
//! Nested module layout: `Modules → <Author> → <ExtName> → <var> = value`.

use crate::data::Duplicate;
use crate::ordered::{
    distinct, has_key, key_index, law_put, law_without, lemma_found, lemma_put_put, lemma_put_same,
    lemma_without_put, put, value_of, without, Entries, OrderedMap,
};
use crate::value::{Json, ValueView};
use vstd::prelude::*;

verus! {

/// The stored values of one module: by variable.
pub type VarMap = OrderedMap<Json>;

/// The stored values of one author's modules: by module name.
pub type ExtMap = OrderedMap<VarMap>;

/// All stored values: by author.
pub type AuthorsMap = OrderedMap<ExtMap>;

/// A [`VarMap`] as contracts speak of it.
pub type VarsView = Entries<ValueView>;

/// An [`ExtMap`] as contracts speak of it.
pub type ExtsView = Entries<VarsView>;

/// An [`AuthorsMap`] as contracts speak of it.
pub type AuthorsView = Entries<ExtsView>;

// ---- General settings ------------------------------------------------------

/// How inherited values are indicated.
#[derive(Debug, Clone, Copy, PartialEq, Eq, Structural)]
pub enum InheritanceDisplayMode {
    /// One arrow per level, hue/value shifted darker the deeper the ancestor.
    Color,
    /// Numeric labels (1, 2, …) per depth; single arrow when only one level
    /// contributes.
    Numbers,
    /// Plain arrows only: stacked in the nav tree, single in the module tree.
    ArrowsOnly,
}

impl Default for InheritanceDisplayMode {
    fn default() -> (r: Self)
        ensures
            r == InheritanceDisplayMode::Color,
    {
        InheritanceDisplayMode::Color
    }
}

/// The splash timeout where none is stored.
pub fn default_splash() -> (r: u64)
    ensures
        r == 3,
{
    3
}

/// What a switch is that is on unless stored otherwise.
pub fn default_true() -> (r: bool)
    ensures
        r,
{
    true
}

/// The settings of the application.
#[derive(Debug)]
pub struct GeneralConfig {
    pub splash_timeout_secs: u64,
    pub default_preset: Option<String>,
    /// Render the whole UI in the monospace font (default) vs proportional sans.
    pub mono_ui: bool,
    /// Allow dragging content to scroll (off by default).
    pub touch_mode: bool,
    /// Let the settings rows fill the whole pane instead of capping their width.
    pub full_width: bool,
    /// What closing the launch-mode editor does: true = launch the game,
    /// false = cancel the launch.
    pub editor_close_launches: bool,
    /// Auto-size the launch command preview box to its content.
    pub dynamic_preview: bool,
    /// How inherited values are indicated in the module and nav trees.
    pub inheritance_display: InheritanceDisplayMode,
    /// Tint or label fields in the module settings panel by chain depth.
    pub show_field_inheritance: bool,
}

/// A [`GeneralConfig`] as contracts speak of it.
#[verifier::ext_equal]
pub struct GeneralConfigView {
    pub splash_timeout_secs: u64,
    pub default_preset: Option<Seq<char>>,
    pub mono_ui: bool,
    pub touch_mode: bool,
    pub full_width: bool,
    pub editor_close_launches: bool,
    pub dynamic_preview: bool,
    pub inheritance_display: InheritanceDisplayMode,
    pub show_field_inheritance: bool,
}

impl DeepView for GeneralConfig {
    type V = GeneralConfigView;

    open spec fn deep_view(&self) -> GeneralConfigView {
        GeneralConfigView {
            splash_timeout_secs: self.splash_timeout_secs,
            default_preset: self.default_preset.deep_view(),
            mono_ui: self.mono_ui,
            touch_mode: self.touch_mode,
            full_width: self.full_width,
            editor_close_launches: self.editor_close_launches,
            dynamic_preview: self.dynamic_preview,
            inheritance_display: self.inheritance_display,
            show_field_inheritance: self.show_field_inheritance,
        }
    }
}

impl Duplicate for GeneralConfig {
    fn duplicate(&self) -> (r: Self) {
        GeneralConfig {
            splash_timeout_secs: self.splash_timeout_secs,
            default_preset: self.default_preset.duplicate(),
            mono_ui: self.mono_ui,
            touch_mode: self.touch_mode,
            full_width: self.full_width,
            editor_close_launches: self.editor_close_launches,
            dynamic_preview: self.dynamic_preview,
            inheritance_display: self.inheritance_display,
            show_field_inheritance: self.show_field_inheritance,
        }
    }
}

impl Clone for GeneralConfig {
    fn clone(&self) -> (r: Self)
        ensures
            r.deep_view() == self.deep_view(),
    {
        self.duplicate()
    }
}

/// The settings where none are stored.
pub open spec fn default_general() -> GeneralConfigView {
    GeneralConfigView {
        splash_timeout_secs: 3,
        default_preset: None,
        mono_ui: true,
        touch_mode: false,
        full_width: false,
        editor_close_launches: true,
        dynamic_preview: false,
        inheritance_display: InheritanceDisplayMode::Color,
        show_field_inheritance: true,
    }
}

impl Default for GeneralConfig {
    fn default() -> (r: Self)
        ensures
            r.deep_view() == default_general(),
    {
        GeneralConfig {
            splash_timeout_secs: default_splash(),
            default_preset: None,
            mono_ui: default_true(),
            touch_mode: false,
            full_width: false,
            editor_close_launches: default_true(),
            dynamic_preview: false,
            inheritance_display: InheritanceDisplayMode::default(),
            show_field_inheritance: default_true(),
        }
    }
}

// ---- Presets and games -----------------------------------------------------

/// A profile: a reusable bundle of stored values.
#[derive(Debug)]
pub struct Preset {
    pub name: String,
    pub modules: AuthorsMap,
    /// The slot (1–10) of a pinned profile.
    pub pin: Option<u8>,
    /// The parent profile; its values form a layer below this one's own.
    pub parent: Option<String>,
}

/// A [`Preset`] as contracts speak of it.
#[verifier::ext_equal]
pub struct PresetView {
    pub name: Seq<char>,
    pub modules: AuthorsView,
    pub pin: Option<u8>,
    pub parent: Option<Seq<char>>,
}

impl DeepView for Preset {
    type V = PresetView;

    open spec fn deep_view(&self) -> PresetView {
        PresetView {
            name: self.name.deep_view(),
            modules: self.modules.deep_view(),
            pin: self.pin.deep_view(),
            parent: self.parent.deep_view(),
        }
    }
}

impl Duplicate for Preset {
    fn duplicate(&self) -> (r: Self) {
        Preset {
            name: self.name.duplicate(),
            modules: self.modules.duplicate(),
            pin: self.pin.duplicate(),
            parent: self.parent.duplicate(),
        }
    }
}

impl Clone for Preset {
    fn clone(&self) -> (r: Self)
        ensures
            r.deep_view() == self.deep_view(),
    {
        self.duplicate()
    }
}

/// The general settings that a game overrides.
#[derive(Debug)]
pub struct GeneralOverrides {
    pub splash_timeout_secs: Option<u64>,
}

/// A [`GeneralOverrides`] as contracts speak of it.
#[verifier::ext_equal]
pub struct GeneralOverridesView {
    pub splash_timeout_secs: Option<u64>,
}

impl DeepView for GeneralOverrides {
    type V = GeneralOverridesView;

    open spec fn deep_view(&self) -> GeneralOverridesView {
        GeneralOverridesView {
            splash_timeout_secs: self.splash_timeout_secs.deep_view(),
        }
    }
}

impl Duplicate for GeneralOverrides {
    fn duplicate(&self) -> (r: Self) {
        GeneralOverrides {
            splash_timeout_secs: self.splash_timeout_secs.duplicate(),
        }
    }
}

impl Clone for GeneralOverrides {
    fn clone(&self) -> (r: Self)
        ensures
            r.deep_view() == self.deep_view(),
    {
        self.duplicate()
    }
}

/// The stored values of a game, and the preset it builds on.
#[derive(Debug)]
pub struct Modules {
    pub preset: Option<String>,
    pub authors: AuthorsMap,
}

/// A [`Modules`] as contracts speak of it.
#[verifier::ext_equal]
pub struct ModulesView {
    pub preset: Option<Seq<char>>,
    pub authors: AuthorsView,
}

impl DeepView for Modules {
    type V = ModulesView;

    open spec fn deep_view(&self) -> ModulesView {
        ModulesView {
            preset: self.preset.deep_view(),
            authors: self.authors.deep_view(),
        }
    }
}

impl Duplicate for Modules {
    fn duplicate(&self) -> (r: Self) {
        Modules {
            preset: self.preset.duplicate(),
            authors: self.authors.duplicate(),
        }
    }
}

impl Clone for Modules {
    fn clone(&self) -> (r: Self)
        ensures
            r.deep_view() == self.deep_view(),
    {
        self.duplicate()
    }
}

/// What a game stores.
#[derive(Debug)]
pub struct GameBody {
    pub general: GeneralOverrides,
    pub modules: Modules,
}

/// A [`GameBody`] as contracts speak of it.
#[verifier::ext_equal]
pub struct GameBodyView {
    pub general: GeneralOverridesView,
    pub modules: ModulesView,
}

impl DeepView for GameBody {
    type V = GameBodyView;

    open spec fn deep_view(&self) -> GameBodyView {
        GameBodyView {
            general: self.general.deep_view(),
            modules: self.modules.deep_view(),
        }
    }
}

impl Duplicate for GameBody {
    fn duplicate(&self) -> (r: Self) {
        GameBody {
            general: self.general.duplicate(),
            modules: self.modules.duplicate(),
        }
    }
}

impl Clone for GameBody {
    fn clone(&self) -> (r: Self)
        ensures
            r.deep_view() == self.deep_view(),
    {
        self.duplicate()
    }
}

/// Who a game is.
#[derive(Debug)]
pub struct GameMeta {
    pub name: String,
    pub appid: String,
}

/// A [`GameMeta`] as contracts speak of it.
#[verifier::ext_equal]
pub struct GameMetaView {
    pub name: Seq<char>,
    pub appid: Seq<char>,
}

impl DeepView for GameMeta {
    type V = GameMetaView;

    open spec fn deep_view(&self) -> GameMetaView {
        GameMetaView {
            name: self.name.deep_view(),
            appid: self.appid.deep_view(),
        }
    }
}

impl Duplicate for GameMeta {
    fn duplicate(&self) -> (r: Self) {
        GameMeta {
            name: self.name.duplicate(),
            appid: self.appid.duplicate(),
        }
    }
}

impl Clone for GameMeta {
    fn clone(&self) -> (r: Self)
        ensures
            r.deep_view() == self.deep_view(),
    {
        self.duplicate()
    }
}

/// The configuration of one game.
#[derive(Debug)]
pub struct GameConfig {
    pub game: GameMeta,
    pub config: GameBody,
}

/// A [`GameConfig`] as contracts speak of it.
#[verifier::ext_equal]
pub struct GameConfigView {
    pub game: GameMetaView,
    pub config: GameBodyView,
}

impl DeepView for GameConfig {
    type V = GameConfigView;

    open spec fn deep_view(&self) -> GameConfigView {
        GameConfigView {
            game: self.game.deep_view(),
            config: self.config.deep_view(),
        }
    }
}

impl Duplicate for GameConfig {
    fn duplicate(&self) -> (r: Self) {
        GameConfig {
            game: self.game.duplicate(),
            config: self.config.duplicate(),
        }
    }
}

impl Clone for GameConfig {
    fn clone(&self) -> (r: Self)
        ensures
            r.deep_view() == self.deep_view(),
    {
        self.duplicate()
    }
}

impl Default for Preset {
    fn default() -> (r: Self)
        ensures
            r.deep_view() == (PresetView { name: seq![], modules: seq![], pin: None, parent: None }),
    {
        let r = Preset { name: String::new(), modules: OrderedMap::new(), pin: None, parent: None };
        assert(r.deep_view().name =~= seq![]);
        r
    }
}

/// A game with nothing stored.
pub open spec fn new_game(appid: Seq<char>, name: Seq<char>) -> GameConfigView {
    GameConfigView {
        game: GameMetaView { name, appid },
        config: GameBodyView {
            general: GeneralOverridesView { splash_timeout_secs: None },
            modules: ModulesView { preset: None, authors: seq![] },
        },
    }
}

// ---- Stored values ---------------------------------------------------------

/// The values of a module, where any are stored.
pub open spec fn vars_at(a: AuthorsView, author: Seq<char>, ext: Seq<char>) -> Option<VarsView> {
    match value_of(a, author) {
        Some(exts) => value_of(exts, ext),
        None => None,
    }
}

/// The stored value of a variable.
pub open spec fn stored(
    a: AuthorsView,
    author: Seq<char>,
    ext: Seq<char>,
    var: Seq<char>,
) -> Option<ValueView> {
    match vars_at(a, author, ext) {
        Some(vars) => value_of(vars, var),
        None => None,
    }
}

/// The modules of an author; none where nothing is stored.
pub open spec fn exts_or_none(a: AuthorsView, author: Seq<char>) -> ExtsView {
    match value_of(a, author) {
        Some(exts) => exts,
        None => seq![],
    }
}

/// The values of a module; none where nothing is stored.
pub open spec fn vars_or_none(a: AuthorsView, author: Seq<char>, ext: Seq<char>) -> VarsView {
    match vars_at(a, author, ext) {
        Some(vars) => vars,
        None => seq![],
    }
}

/// `a` with `vars` as the values of a module.
pub open spec fn with_vars(
    a: AuthorsView,
    author: Seq<char>,
    ext: Seq<char>,
    vars: VarsView,
) -> AuthorsView {
    put(a, author, put(exts_or_none(a, author), ext, vars))
}

/// `a` with a variable set.
pub open spec fn value_set(
    a: AuthorsView,
    author: Seq<char>,
    ext: Seq<char>,
    var: Seq<char>,
    value: ValueView,
) -> AuthorsView {
    with_vars(a, author, ext, put(vars_or_none(a, author, ext), var, value))
}

/// `a` without a module that holds no values, and without its author where that
/// leaves nothing.
pub open spec fn pruned(a: AuthorsView, author: Seq<char>, ext: Seq<char>) -> AuthorsView {
    match value_of(a, author) {
        None => a,
        Some(exts) => {
            let left = match value_of(exts, ext) {
                Some(vars) => if vars.len() == 0 {
                    without(exts, ext)
                } else {
                    exts
                },
                None => exts,
            };
            if left.len() == 0 {
                without(a, author)
            } else {
                put(a, author, left)
            }
        },
    }
}

/// `a` with a variable back to inherited: its value is gone, and so are the maps
/// that this leaves empty.
pub open spec fn value_unset(
    a: AuthorsView,
    author: Seq<char>,
    ext: Seq<char>,
    var: Seq<char>,
) -> AuthorsView {
    match vars_at(a, author, ext) {
        Some(vars) => pruned(with_vars(a, author, ext, without(vars, var)), author, ext),
        None => pruned(a, author, ext),
    }
}

/// Looks up a stored variable override (`author` → `ext` → `var`).
pub fn lookup<'a>(authors: &'a AuthorsMap, author: &str, ext: &str, var: &str) -> (r: Option<
    &'a Json,
>)
    ensures
        r.deep_view() == stored(authors.deep_view(), author@, ext@, var@),
{
    match authors.get(author) {
        Some(exts) => match exts.get(ext) {
            Some(vars) => vars.get(var),
            None => None,
        },
        None => None,
    }
}

/// A copy of the values of a module.
pub fn copy_vars(authors: &AuthorsMap, author: &str, ext: &str) -> (r: Option<VarMap>)
    ensures
        r.deep_view() == vars_at(authors.deep_view(), author@, ext@),
{
    match authors.get(author) {
        Some(exts) => match exts.get(ext) {
            Some(vars) => Some(vars.duplicate()),
            None => None,
        },
        None => None,
    }
}

/// Sets all values of a module.
pub fn put_vars(authors: &mut AuthorsMap, author: &str, ext: &str, vars: VarMap)
    ensures
        final(authors).deep_view() == with_vars(
            old(authors).deep_view(),
            author@,
            ext@,
            vars.deep_view(),
        ),
{
    let mut exts = match authors.get(author) {
        Some(e) => e.duplicate(),
        None => OrderedMap::new(),
    };
    exts.insert(ext.to_owned(), vars);
    authors.insert(author.to_owned(), exts);
}

/// Takes out a module without values, and its author where that leaves nothing.
pub fn prune(authors: &mut AuthorsMap, author: &str, ext: &str)
    ensures
        final(authors).deep_view() == pruned(old(authors).deep_view(), author@, ext@),
{
    let mut exts = match authors.get(author) {
        Some(e) => e.duplicate(),
        None => {
            return ;
        },
    };
    let empty = match exts.get(ext) {
        Some(vars) => vars.is_empty(),
        None => false,
    };
    if empty {
        let _ = exts.shift_remove(ext);
    }
    if exts.is_empty() {
        let _ = authors.shift_remove(author);
    } else {
        authors.insert(author.to_owned(), exts);
    }
}

/// Sets a variable value.
pub fn set_stored(authors: &mut AuthorsMap, author: &str, ext: &str, var: &str, value: Json)
    ensures
        final(authors).deep_view() == value_set(
            old(authors).deep_view(),
            author@,
            ext@,
            var@,
            value.deep_view(),
        ),
{
    let mut vars = match copy_vars(authors, author, ext) {
        Some(v) => v,
        None => OrderedMap::new(),
    };
    vars.insert(var.to_owned(), value);
    put_vars(authors, author, ext, vars);
}

fn unset_stored(authors: &mut AuthorsMap, author: &str, ext: &str, var: &str)
    ensures
        final(authors).deep_view() == value_unset(old(authors).deep_view(), author@, ext@, var@),
{
    match copy_vars(authors, author, ext) {
        Some(v) => {
            let mut vars = v;
            let _ = vars.shift_remove(var);
            put_vars(authors, author, ext, vars);
        },
        None => {},
    }
    prune(authors, author, ext);
}

/// A profile with a value set.
pub open spec fn preset_set(
    p: PresetView,
    author: Seq<char>,
    ext: Seq<char>,
    var: Seq<char>,
    value: ValueView,
) -> PresetView {
    PresetView { modules: value_set(p.modules, author, ext, var, value), ..p }
}

/// A profile with a value taken out.
pub open spec fn preset_unset(
    p: PresetView,
    author: Seq<char>,
    ext: Seq<char>,
    var: Seq<char>,
) -> PresetView {
    PresetView { modules: value_unset(p.modules, author, ext, var), ..p }
}

/// A game with a value set.
pub open spec fn game_set(
    g: GameConfigView,
    author: Seq<char>,
    ext: Seq<char>,
    var: Seq<char>,
    value: ValueView,
) -> GameConfigView {
    g.with_authors(value_set(g.config.modules.authors, author, ext, var, value))
}

/// A game with a value taken out.
pub open spec fn game_unset(
    g: GameConfigView,
    author: Seq<char>,
    ext: Seq<char>,
    var: Seq<char>,
) -> GameConfigView {
    g.with_authors(value_unset(g.config.modules.authors, author, ext, var))
}

impl Preset {
    /// The stored value of a variable.
    pub fn get_value(&self, author: &str, ext: &str, var: &str) -> (r: Option<&Json>)
        ensures
            r.deep_view() == stored(self.deep_view().modules, author@, ext@, var@),
    {
        lookup(&self.modules, author, ext, var)
    }

    /// Sets (overrides) a variable value.
    pub fn set_value(&mut self, author: &str, ext: &str, var: &str, value: Json)
        ensures
            final(self).deep_view() == preset_set(
                old(self).deep_view(),
                author@,
                ext@,
                var@,
                value.deep_view(),
            ),
    {
        set_stored(&mut self.modules, author, ext, var, value);
    }

    /// Removes an override (reset-to-inherit); prunes now-empty parent maps.
    pub fn unset_value(&mut self, author: &str, ext: &str, var: &str)
        ensures
            final(self).deep_view() == preset_unset(old(self).deep_view(), author@, ext@, var@),
    {
        unset_stored(&mut self.modules, author, ext, var);
    }
}

impl GameConfigView {
    /// The game with other stored values.
    pub open spec fn with_authors(self, authors: AuthorsView) -> GameConfigView {
        GameConfigView {
            config: GameBodyView {
                modules: ModulesView { authors, ..self.config.modules },
                ..self.config
            },
            ..self
        }
    }
}

impl GameConfig {
    /// A game with nothing stored.
    pub fn new(appid: &str, name: &str) -> (r: Self)
        ensures
            r.deep_view() == new_game(appid@, name@),
    {
        GameConfig {
            game: GameMeta { name: name.to_owned(), appid: appid.to_owned() },
            config: GameBody {
                general: GeneralOverrides { splash_timeout_secs: None },
                modules: Modules { preset: None, authors: OrderedMap::new() },
            },
        }
    }

    /// The stored value of a variable.
    pub fn get_value(&self, author: &str, ext: &str, var: &str) -> (r: Option<&Json>)
        ensures
            r.deep_view() == stored(self.deep_view().config.modules.authors, author@, ext@, var@),
    {
        lookup(&self.config.modules.authors, author, ext, var)
    }

    /// Sets (overrides) a variable value.
    pub fn set_value(&mut self, author: &str, ext: &str, var: &str, value: Json)
        ensures
            final(self).deep_view() == game_set(
                old(self).deep_view(),
                author@,
                ext@,
                var@,
                value.deep_view(),
            ),
    {
        set_stored(&mut self.config.modules.authors, author, ext, var, value);
    }

    /// Removes an override (reset-to-inherit); prunes now-empty parent maps.
    pub fn unset_value(&mut self, author: &str, ext: &str, var: &str)
        ensures
            final(self).deep_view() == game_unset(old(self).deep_view(), author@, ext@, var@),
    {
        unset_stored(&mut self.config.modules.authors, author, ext, var);
    }
}

// ---- Migration of the version-nested layout --------------------------------

/// The values hold a version layer: there are some, and each is an object
/// (variable values are never objects).
pub open spec fn is_nested(vars: VarsView) -> bool {
    vars.len() > 0 && forall|i: int| 0 <= i < vars.len() ==> (#[trigger] vars[i]).1 is Object
}

/// The entries of `obj` put into `flat`, in order.
pub open spec fn object_added(flat: VarsView, obj: Seq<(Seq<char>, ValueView)>) -> VarsView
    decreases obj.len(),
{
    if obj.len() == 0 {
        flat
    } else {
        put(object_added(flat, obj.drop_last()), obj.last().0, obj.last().1)
    }
}

/// The entries of all objects in one map; the last one wins.
pub open spec fn objects_merged(vars: VarsView) -> VarsView
    decreases vars.len(),
{
    if vars.len() == 0 {
        seq![]
    } else {
        match vars.last().1 {
            ValueView::Object(obj) => object_added(objects_merged(vars.drop_last()), obj),
            _ => objects_merged(vars.drop_last()),
        }
    }
}

/// The values of a module without a version layer.
pub open spec fn vars_flat(vars: VarsView) -> VarsView {
    if is_nested(vars) {
        objects_merged(vars)
    } else {
        vars
    }
}

/// The modules of an author without a version layer.
pub open spec fn exts_flat(exts: ExtsView) -> ExtsView {
    exts.map_values(|e: (Seq<char>, VarsView)| (e.0, vars_flat(e.1)))
}

/// All stored values without a version layer.
pub open spec fn authors_flat(a: AuthorsView) -> AuthorsView {
    a.map_values(|e: (Seq<char>, ExtsView)| (e.0, exts_flat(e.1)))
}

fn flatten_vars(vars: &VarMap) -> (r: VarMap)
    ensures
        r.deep_view() == vars_flat(vars.deep_view()),
{
    let ghost d = vars.deep_view();
    let n: usize = vars.len();
    if n == 0 {
        return vars.duplicate();
    }
    let mut i: usize = 0;
    while i < n
        invariant
            d == vars.deep_view(),
            i <= n == d.len(),
            n > 0,
            forall|j: int| 0 <= j < i ==> (#[trigger] d[j]).1 is Object,
        decreases n - i,
    {
        match vars.value_at(i) {
            Json::Object(_) => {},
            _ => {
                assert(!(d[i as int].1 is Object));
                return vars.duplicate();
            },
        }
        i += 1;
    }
    let mut flat: VarMap = OrderedMap::new();
    let mut k: usize = 0;
    assert(flat.deep_view() =~= objects_merged(d.take(0)));
    while k < n
        invariant
            d == vars.deep_view(),
            k <= n == d.len(),
            flat.deep_view() == objects_merged(d.take(k as int)),
        decreases n - k,
    {
        assert(d.take(k + 1).drop_last() =~= d.take(k as int));
        match vars.value_at(k) {
            Json::Object(obj) => {
                let ghost before = flat.deep_view();
                let ghost o = d[k as int].1->Object_0;
                let mut j: usize = 0;
                assert(object_added(before, o.take(0)) == before);
                while j < obj.len()
                    invariant
                        o.len() == obj@.len(),
                        forall|x: int|
                            0 <= x < obj@.len() ==> (#[trigger] o[x]).0 == obj@[x].0@ && o[x].1
                                == obj@[x].1.deep_view(),
                        j <= obj@.len(),
                        flat.deep_view() == object_added(before, o.take(j as int)),
                    decreases obj@.len() - j,
                {
                    assert(o.take(j + 1).drop_last() =~= o.take(j as int));
                    assert(o.take(j + 1).last() == o[j as int]);
                    flat.insert(obj[j].0.clone(), obj[j].1.duplicate());
                    j += 1;
                }
                assert(o.take(o.len() as int) =~= o);
            },
            _ => {},
        }
        k += 1;
    }
    assert(d.take(n as int) =~= d);
    flat
}

fn flatten_exts(exts: &ExtMap) -> (r: ExtMap)
    ensures
        r.deep_view() == exts_flat(exts.deep_view()),
{
    let mut out: ExtMap = OrderedMap::new();
    let ghost d = exts.deep_view();
    let ghost all = exts_flat(d);
    let n: usize = exts.len();
    let mut i: usize = 0;
    while i < n
        invariant
            d == exts.deep_view(),
            all == exts_flat(d),
            i <= n == d.len(),
            distinct(d),
            out.deep_view() == all.take(i as int),
        decreases n - i,
    {
        proof {
            assert forall|j: int| 0 <= j < i implies (#[trigger] all.take(i as int)[j]).0
                != d[i as int].0 by {
                assert(d[j].0 != d[i as int].0);
            }
        }
        out.insert(exts.key_at(i).clone(), flatten_vars(exts.value_at(i)));
        assert(all.take(i + 1) =~= all.take(i as int).push(all[i as int]));
        i += 1;
    }
    assert(all.take(n as int) =~= all);
    out
}

/// Migrates the version-nested layout (`… → <ExtName> → <Version> → vars`) to the
/// flat one (`… → <ExtName> → vars`). A module's stored values are taken for
/// nested where every entry is itself an object, in which case the per-version
/// maps are merged (last wins).
pub fn migrate_authors(authors: &mut AuthorsMap)
    ensures
        final(authors).deep_view() == authors_flat(old(authors).deep_view()),
{
    let mut out: AuthorsMap = OrderedMap::new();
    let ghost d = authors.deep_view();
    let ghost all = authors_flat(d);
    let n: usize = authors.len();
    let mut i: usize = 0;
    while i < n
        invariant
            d == authors.deep_view(),
            all == authors_flat(d),
            i <= n == d.len(),
            distinct(d),
            out.deep_view() == all.take(i as int),
        decreases n - i,
    {
        proof {
            assert forall|j: int| 0 <= j < i implies (#[trigger] all.take(i as int)[j]).0
                != d[i as int].0 by {
                assert(d[j].0 != d[i as int].0);
            }
        }
        out.insert(authors.key_at(i).clone(), flatten_exts(authors.value_at(i)));
        assert(all.take(i + 1) =~= all.take(i as int).push(all[i as int]));
        i += 1;
    }
    assert(all.take(n as int) =~= all);
    *authors = out;
}

// ---- Laws ------------------------------------------------------------------

/// No key stands twice at any level; every [`AuthorsMap`] is like this.
pub open spec fn valid(a: AuthorsView) -> bool {
    &&& distinct(a)
    &&& forall|i: int| 0 <= i < a.len() ==> valid_exts((#[trigger] a[i]).1)
}

/// No key stands twice among the modules of an author.
pub open spec fn valid_exts(exts: ExtsView) -> bool {
    &&& distinct(exts)
    &&& forall|i: int| 0 <= i < exts.len() ==> distinct((#[trigger] exts[i]).1)
}

proof fn lemma_value_in<T>(m: Entries<T>, k: Seq<char>)
    requires
        has_key(m, k),
    ensures
        0 <= key_index(m, k) < m.len(),
        m[key_index(m, k)] == (k, value_of(m, k)->0),
{
    let i = key_index(m, k);
    assert(0 <= i < m.len() && m[i].0 == k);
}

/// The parts of valid stored values are valid.
pub proof fn lemma_valid_parts(a: AuthorsView, author: Seq<char>, ext: Seq<char>)
    requires
        valid(a),
    ensures
        valid_exts(exts_or_none(a, author)),
        distinct(vars_or_none(a, author, ext)),
{
    if has_key(a, author) {
        lemma_value_in(a, author);
        let exts = exts_or_none(a, author);
        assert(a[key_index(a, author)].1 == exts);
        if has_key(exts, ext) {
            lemma_value_in(exts, ext);
            assert(exts[key_index(exts, ext)].1 == vars_or_none(a, author, ext));
        }
    }
}

proof fn lemma_put_valid_exts(exts: ExtsView, ext: Seq<char>, vars: VarsView)
    requires
        valid_exts(exts),
        distinct(vars),
    ensures
        valid_exts(put(exts, ext, vars)),
{
    law_put(exts, ext, vars, ext);
    let p = put(exts, ext, vars);
    if has_key(exts, ext) {
        lemma_value_in(exts, ext);
    }
    assert forall|i: int| 0 <= i < p.len() implies distinct((#[trigger] p[i]).1) by {
        if i < exts.len() && p[i] == exts[i] {
            assert(distinct(exts[i].1));
        }
    }
}

proof fn lemma_put_valid(a: AuthorsView, author: Seq<char>, exts: ExtsView)
    requires
        valid(a),
        valid_exts(exts),
    ensures
        valid(put(a, author, exts)),
{
    law_put(a, author, exts, author);
    let p = put(a, author, exts);
    if has_key(a, author) {
        lemma_value_in(a, author);
    }
    assert forall|i: int| 0 <= i < p.len() implies valid_exts((#[trigger] p[i]).1) by {
        if i < a.len() && p[i] == a[i] {
            assert(valid_exts(a[i].1));
        }
    }
}

proof fn lemma_without_valid(a: AuthorsView, author: Seq<char>)
    requires
        valid(a),
    ensures
        valid(without(a, author)),
{
    law_without(a, author, author);
    let p = without(a, author);
    if has_key(a, author) {
        lemma_value_in(a, author);
        let at = key_index(a, author);
        assert forall|i: int| 0 <= i < p.len() implies valid_exts((#[trigger] p[i]).1) by {
            let j = if i < at {
                i
            } else {
                i + 1
            };
            assert(p[i] == a[j]);
            assert(valid_exts(a[j].1));
        }
    }
}

proof fn lemma_without_valid_exts(exts: ExtsView, ext: Seq<char>)
    requires
        valid_exts(exts),
    ensures
        valid_exts(without(exts, ext)),
{
    law_without(exts, ext, ext);
    let p = without(exts, ext);
    if has_key(exts, ext) {
        lemma_value_in(exts, ext);
        let at = key_index(exts, ext);
        assert forall|i: int| 0 <= i < p.len() implies distinct((#[trigger] p[i]).1) by {
            let j = if i < at {
                i
            } else {
                i + 1
            };
            assert(p[i] == exts[j]);
            assert(distinct(exts[j].1));
        }
    }
}

/// Setting the values of a module sets those, and touches no other module.
pub proof fn law_with_vars(
    a: AuthorsView,
    author: Seq<char>,
    ext: Seq<char>,
    vars: VarsView,
    other_author: Seq<char>,
    other_ext: Seq<char>,
)
    requires
        valid(a),
        distinct(vars),
    ensures
        valid(with_vars(a, author, ext, vars)),
        vars_at(with_vars(a, author, ext, vars), other_author, other_ext) == if other_author
            == author && other_ext == ext {
            Some(vars)
        } else {
            vars_at(a, other_author, other_ext)
        },
{
    lemma_valid_parts(a, author, ext);
    let exts = exts_or_none(a, author);
    lemma_put_valid_exts(exts, ext, vars);
    lemma_put_valid(a, author, put(exts, ext, vars));
    law_put(exts, ext, vars, other_ext);
    law_put(a, author, put(exts, ext, vars), other_author);
}

/// Pruning takes out no value.
pub proof fn law_pruned(
    a: AuthorsView,
    author: Seq<char>,
    ext: Seq<char>,
    other_author: Seq<char>,
    other_ext: Seq<char>,
)
    requires
        valid(a),
    ensures
        valid(pruned(a, author, ext)),
        vars_or_none(pruned(a, author, ext), other_author, other_ext) == vars_or_none(
            a,
            other_author,
            other_ext,
        ),
{
    if has_key(a, author) {
        lemma_valid_parts(a, author, ext);
        let exts = exts_or_none(a, author);
        let gone = value_of(exts, ext) matches Some(v) && v.len() == 0;
        let left = if gone {
            without(exts, ext)
        } else {
            exts
        };
        lemma_without_valid_exts(exts, ext);
        law_without(exts, ext, other_ext);
        lemma_without_valid(a, author);
        law_without(a, author, other_author);
        lemma_put_valid(a, author, left);
        law_put(a, author, left, other_author);
        if gone && other_author == author && other_ext == ext {
            assert(value_of(exts, ext)->0 =~= seq![]);
        }
        if left.len() == 0 && other_author == author {
            assert(!has_key(left, other_ext));
        }
    }
}

/// What is set is read back, and no other value changes.
pub proof fn law_set_then_get(
    a: AuthorsView,
    author: Seq<char>,
    ext: Seq<char>,
    var: Seq<char>,
    value: ValueView,
    other_author: Seq<char>,
    other_ext: Seq<char>,
    other_var: Seq<char>,
)
    requires
        valid(a),
    ensures
        valid(value_set(a, author, ext, var, value)),
        stored(value_set(a, author, ext, var, value), other_author, other_ext, other_var)
            == if other_author == author && other_ext == ext && other_var == var {
            Some(value)
        } else {
            stored(a, other_author, other_ext, other_var)
        },
{
    lemma_valid_parts(a, author, ext);
    let vars = vars_or_none(a, author, ext);
    law_put(vars, var, value, other_var);
    law_with_vars(a, author, ext, put(vars, var, value), other_author, other_ext);
}

/// What is unset is inherited again, and no other value changes.
pub proof fn law_unset_then_get(
    a: AuthorsView,
    author: Seq<char>,
    ext: Seq<char>,
    var: Seq<char>,
    other_author: Seq<char>,
    other_ext: Seq<char>,
    other_var: Seq<char>,
)
    requires
        valid(a),
    ensures
        valid(value_unset(a, author, ext, var)),
        stored(value_unset(a, author, ext, var), other_author, other_ext, other_var)
            == if other_author == author && other_ext == ext && other_var == var {
            None
        } else {
            stored(a, other_author, other_ext, other_var)
        },
{
    lemma_valid_parts(a, author, ext);
    let u = value_unset(a, author, ext, var);
    match vars_at(a, author, ext) {
        Some(vars) => {
            law_without(vars, var, other_var);
            let b = with_vars(a, author, ext, without(vars, var));
            law_with_vars(a, author, ext, without(vars, var), other_author, other_ext);
            law_pruned(b, author, ext, other_author, other_ext);
            lemma_stored(u, other_author, other_ext, other_var);
            lemma_stored(b, other_author, other_ext, other_var);
        },
        None => {
            law_pruned(a, author, ext, other_author, other_ext);
            lemma_stored(u, other_author, other_ext, other_var);
            lemma_stored(a, other_author, other_ext, other_var);
        },
    }
}

/// A value is stored where its module holds it.
pub proof fn lemma_stored(a: AuthorsView, author: Seq<char>, ext: Seq<char>, var: Seq<char>)
    ensures
        stored(a, author, ext, var) == value_of(vars_or_none(a, author, ext), var),
{
}

/// No map is empty: every author has a module, and every module a value.
pub open spec fn tidy(a: AuthorsView) -> bool {
    forall|i: int| 0 <= i < a.len() ==> tidy_exts((#[trigger] a[i]).1)
}

/// An author has a module, and each of them a value.
pub open spec fn tidy_exts(exts: ExtsView) -> bool {
    &&& exts.len() > 0
    &&& forall|i: int| 0 <= i < exts.len() ==> (#[trigger] exts[i]).1.len() > 0
}

/// Setting and unsetting leave no empty maps behind, so only what was set is
/// kept.
pub proof fn law_stays_tidy(
    a: AuthorsView,
    author: Seq<char>,
    ext: Seq<char>,
    var: Seq<char>,
    value: ValueView,
)
    requires
        valid(a),
        tidy(a),
    ensures
        tidy(value_set(a, author, ext, var, value)),
        tidy(value_unset(a, author, ext, var)),
{
    lemma_valid_parts(a, author, ext);
    let exts = exts_or_none(a, author);
    let vars = vars_or_none(a, author, ext);
    if has_key(a, author) {
        lemma_value_in(a, author);
        assert(tidy_exts(a[key_index(a, author)].1));
        if has_key(exts, ext) {
            lemma_value_in(exts, ext);
            assert(exts[key_index(exts, ext)].1.len() > 0);
        }
    }
    law_put(vars, var, value, var);
    lemma_tidy_put(a, author, ext, put(vars, var, value));
    match vars_at(a, author, ext) {
        Some(vs) => {
            let w = without(vs, var);
            law_without(vs, var, var);
            law_with_vars(a, author, ext, w, author, ext);
            lemma_put_exts(a, author, put(exts, ext, w));
            if w.len() > 0 {
                lemma_tidy_put(a, author, ext, w);
                lemma_put_put(a, author, put(exts, ext, w), put(exts, ext, w));
                lemma_put_same(with_vars(a, author, ext, w), author);
            } else {
                let e2 = put(exts, ext, w);
                law_put(exts, ext, w, ext);
                let left = without(e2, ext);
                lemma_without_update(exts, ext, w);
                let b = with_vars(a, author, ext, w);
                if left.len() == 0 {
                    lemma_tidy_without(a, author, e2);
                } else {
                    lemma_put_put(a, author, e2, left);
                    lemma_tidy_put_exts(a, author, left);
                }
            }
        },
        None => {
            if has_key(a, author) {
                lemma_put_same(a, author);
            }
        },
    }
}

proof fn lemma_put_exts(a: AuthorsView, author: Seq<char>, exts: ExtsView)
    requires
        valid(a),
    ensures
        value_of(put(a, author, exts), author) == Some(exts),
        has_key(put(a, author, exts), author),
{
    law_put(a, author, exts, author);
}

proof fn lemma_tidy_put_exts(a: AuthorsView, author: Seq<char>, exts: ExtsView)
    requires
        tidy(a),
        tidy_exts(exts),
    ensures
        tidy(put(a, author, exts)),
{
    let p = put(a, author, exts);
    if has_key(a, author) {
        lemma_value_in(a, author);
    }
    assert forall|i: int| 0 <= i < p.len() implies tidy_exts((#[trigger] p[i]).1) by {
        if i < a.len() && p[i] == a[i] {
            assert(tidy_exts(a[i].1));
        }
    }
}

proof fn lemma_tidy_put(a: AuthorsView, author: Seq<char>, ext: Seq<char>, vars: VarsView)
    requires
        valid(a),
        tidy(a),
        vars.len() > 0,
    ensures
        tidy(with_vars(a, author, ext, vars)),
{
    let exts = exts_or_none(a, author);
    let p = put(exts, ext, vars);
    if has_key(a, author) {
        lemma_value_in(a, author);
        assert(tidy_exts(a[key_index(a, author)].1));
    }
    if has_key(exts, ext) {
        lemma_value_in(exts, ext);
    }
    assert forall|i: int| 0 <= i < p.len() implies (#[trigger] p[i]).1.len() > 0 by {
        if i < exts.len() && p[i] == exts[i] {
            assert(exts[i].1.len() > 0);
        }
    }
    lemma_tidy_put_exts(a, author, p);
}

proof fn lemma_without_update(exts: ExtsView, ext: Seq<char>, w: VarsView)
    requires
        valid_exts(exts),
        tidy_exts(exts),
        has_key(exts, ext),
    ensures
        without(put(exts, ext, w), ext).len() > 0 ==> tidy_exts(without(put(exts, ext, w), ext)),
{
    let p = put(exts, ext, w);
    law_put(exts, ext, w, ext);
    lemma_value_in(exts, ext);
    let at = key_index(exts, ext);
    assert(p[at].0 == ext);
    lemma_found(p, at);
    let r = without(p, ext);
    assert forall|i: int| 0 <= i < r.len() implies (#[trigger] r[i]).1.len() > 0 by {
        let j = if i < at {
            i
        } else {
            i + 1
        };
        assert(r[i] == exts[j]);
        assert(exts[j].1.len() > 0);
    }
}

proof fn lemma_tidy_without(a: AuthorsView, author: Seq<char>, exts: ExtsView)
    requires
        valid(a),
        tidy(a),
        has_key(a, author),
    ensures
        tidy(without(put(a, author, exts), author)),
{
    let p = put(a, author, exts);
    law_put(a, author, exts, author);
    lemma_value_in(a, author);
    let at = key_index(a, author);
    assert(p[at].0 == author);
    lemma_found(p, at);
    let r = without(p, author);
    assert forall|i: int| 0 <= i < r.len() implies tidy_exts((#[trigger] r[i]).1) by {
        let j = if i < at {
            i
        } else {
            i + 1
        };
        assert(r[i] == a[j]);
        assert(tidy_exts(a[j].1));
    }
}

/// Unsetting undoes setting: a variable that was not stored is gone without a
/// trace.
pub proof fn law_unset_undoes_set(
    a: AuthorsView,
    author: Seq<char>,
    ext: Seq<char>,
    var: Seq<char>,
    value: ValueView,
)
    requires
        valid(a),
        tidy(a),
        stored(a, author, ext, var) is None,
    ensures
        value_unset(value_set(a, author, ext, var, value), author, ext, var) == a,
{
    lemma_valid_parts(a, author, ext);
    let exts = exts_or_none(a, author);
    let vars = vars_or_none(a, author, ext);
    let vars1 = put(vars, var, value);
    let exts1 = put(exts, ext, vars1);
    let a1 = put(a, author, exts1);
    assert(!has_key(vars, var));
    lemma_without_put(vars, var, value);
    law_with_vars(a, author, ext, vars1, author, ext);
    law_put(a, author, exts1, author);
    let exts2 = put(exts, ext, vars);
    lemma_put_put(exts, ext, vars1, vars);
    lemma_put_put(a, author, exts1, exts2);
    let a2 = put(a, author, exts2);
    assert(with_vars(a1, author, ext, vars) == a2);
    law_put(a, author, exts2, author);
    law_put(exts, ext, vars, ext);
    if has_key(a, author) {
        lemma_value_in(a, author);
        assert(tidy_exts(a[key_index(a, author)].1));
        lemma_put_put(a, author, exts2, exts);
        lemma_put_same(a, author);
    }
    if has_key(exts, ext) {
        lemma_value_in(exts, ext);
        assert(exts[key_index(exts, ext)].1.len() > 0);
        lemma_put_same(exts, ext);
        assert(exts2 == exts);
    } else {
        assert(vars =~= seq![]);
        lemma_without_put(exts, ext, vars);
        if !has_key(a, author) {
            lemma_without_put(a, author, exts2);
        }
    }
}

/// Stored values without a version layer are left as they are.
pub proof fn law_flat_is_kept(a: AuthorsView)
    requires
        forall|i: int, j: int|
            0 <= i < a.len() && 0 <= j < a[i].1.len() ==> !is_nested((#[trigger] a[i].1[j]).1),
    ensures
        authors_flat(a) == a,
{
    let f = authors_flat(a);
    assert forall|i: int| 0 <= i < a.len() implies f[i] == a[i] by {
        assert forall|j: int| 0 <= j < a[i].1.len() implies f[i].1[j] == a[i].1[j] by {
            assert(!is_nested(a[i].1[j].1));
        }
        assert(f[i].1 =~= a[i].1);
    }
    assert(f =~= a);
}

/// No value is an object, as variable values never are.
pub open spec fn scalars(vars: VarsView) -> bool {
    forall|i: int| 0 <= i < vars.len() ==> !((#[trigger] vars[i]).1 is Object)
}

proof fn lemma_object_added(flat: VarsView, obj: Seq<(Seq<char>, ValueView)>)
    requires
        scalars(flat),
        scalars(obj),
    ensures
        scalars(object_added(flat, obj)),
    decreases obj.len(),
{
    if obj.len() > 0 {
        let init = obj.drop_last();
        assert forall|i: int| 0 <= i < init.len() implies !((#[trigger] init[i]).1 is Object) by {
            assert(!(obj[i].1 is Object));
        }
        lemma_object_added(flat, init);
        let m = object_added(flat, init);
        let p = put(m, obj.last().0, obj.last().1);
        assert(!(obj[obj.len() - 1].1 is Object));
        assert forall|i: int| 0 <= i < p.len() implies !((#[trigger] p[i]).1 is Object) by {
            if i < m.len() && p[i] == m[i] {
                assert(!(m[i].1 is Object));
            }
        }
    }
}

/// The values behind a version layer are scalars.
pub open spec fn one_layer(vars: VarsView) -> bool {
    forall|i: int|
        0 <= i < vars.len() ==> ((#[trigger] vars[i]).1 matches ValueView::Object(o) ==> scalars(o))
}

proof fn lemma_objects_merged(vars: VarsView)
    requires
        one_layer(vars),
    ensures
        scalars(objects_merged(vars)),
    decreases vars.len(),
{
    if vars.len() > 0 {
        let init = vars.drop_last();
        assert forall|i: int| 0 <= i < init.len() implies ((#[trigger] init[i]).1 matches
            ValueView::Object(o) ==> scalars(o)) by {
            assert(vars[i] == init[i]);
        }
        lemma_objects_merged(init);
        if let ValueView::Object(o) = vars.last().1 {
            assert(vars[vars.len() - 1].1 == ValueView::Object(o));
            lemma_object_added(objects_merged(init), o);
        }
    }
}

/// Migrating is done once: values that were migrated are not touched again.
pub proof fn law_migrating_twice_is_migrating_once(a: AuthorsView)
    requires
        forall|i: int, j: int|
            0 <= i < a.len() && 0 <= j < a[i].1.len() ==> one_layer((#[trigger] a[i].1[j]).1),
    ensures
        authors_flat(authors_flat(a)) == authors_flat(a),
{
    let f = authors_flat(a);
    assert forall|i: int, j: int|
        0 <= i < f.len() && 0 <= j < f[i].1.len() implies !is_nested((#[trigger] f[i].1[j]).1) by {
        let vars = a[i].1[j].1;
        assert(one_layer(vars));
        assert(f[i].1[j].1 == vars_flat(vars));
        if is_nested(vars) {
            lemma_objects_merged(vars);
            let m = objects_merged(vars);
            if m.len() > 0 {
                assert(!(m[0].1 is Object));
            }
        }
    }
    law_flat_is_kept(f);
}

} // verus!
