//! Resolving a game and assembling its launch command: which extensions apply,
//! which profile it builds on, and what the profile inherits.

use crate::builder::{
    build, built, ExtInput, InputView, LaunchCommand, LaunchCommandView, Outcome,
};
use crate::config::{
    law_set_then_get, new_game, set_stored, stored, valid, value_set, AuthorsMap, AuthorsView,
    ExtsView, GameConfig, GameConfigView, GeneralConfig, GeneralConfigView, Preset, PresetView,
    VarsView,
};
use crate::data::Duplicate;
use crate::error::{outcome, Result};
use crate::extension::{LoadedExtension, LoadedExtensionView};
use crate::ordered::{distinct, has_key, key_index, lemma_found, value_of};
use crate::paths::{path_joined, Paths};
use crate::resolve::{
    resolve, resolved, LayersView, Resolution, ResolutionView, ResolvedField, ResolvedFieldView,
};
use crate::schema::{applicable, id_of, Extension, ExtensionView};
use crate::sorting::{order, sort, sorted, text_at_most, text_le, Ordered};
use crate::steam::{ascii_lowercase, ascii_lowered, SteamCommand, SteamCommandView};
use crate::text::{contains_text, same_text, split_at_char, split_char};
use crate::value::ValueView;
use crate::variables::VarStore;
use vstd::prelude::*;

verus! {

/// What the application works with: where its configuration is, its settings, and
/// the extensions that were loaded.
#[derive(Debug)]
pub struct AppContext {
    pub paths: Paths,
    pub general: GeneralConfig,
    pub extensions: Vec<LoadedExtension>,
}

/// An [`AppContext`] as contracts speak of it.
#[verifier::ext_equal]
pub struct AppContextView {
    pub paths: Seq<char>,
    pub general: GeneralConfigView,
    pub extensions: Seq<LoadedExtensionView>,
}

impl DeepView for AppContext {
    type V = AppContextView;

    open spec fn deep_view(&self) -> AppContextView {
        AppContextView {
            paths: self.paths.deep_view(),
            general: self.general.deep_view(),
            extensions: self.extensions.deep_view(),
        }
    }
}

impl Duplicate for AppContext {
    fn duplicate(&self) -> (r: Self) {
        AppContext {
            paths: self.paths.duplicate(),
            general: self.general.duplicate(),
            extensions: self.extensions.duplicate(),
        }
    }
}

impl Clone for AppContext {
    fn clone(&self) -> (r: Self)
        ensures
            r.deep_view() == self.deep_view(),
    {
        self.duplicate()
    }
}

/// A game with everything its launch command is assembled from.
#[derive(Debug)]
pub struct ResolvedGame {
    pub appid: String,
    pub specs: Vec<Extension>,
    pub resolution: Resolution,
    pub game_config: GameConfig,
    pub preset: Option<Preset>,
}

/// A [`ResolvedGame`] as contracts speak of it.
#[verifier::ext_equal]
pub struct ResolvedGameView {
    pub appid: Seq<char>,
    pub specs: Seq<ExtensionView>,
    pub resolution: ResolutionView,
    pub game_config: GameConfigView,
    pub preset: Option<PresetView>,
}

impl DeepView for ResolvedGame {
    type V = ResolvedGameView;

    open spec fn deep_view(&self) -> ResolvedGameView {
        ResolvedGameView {
            appid: self.appid.deep_view(),
            specs: self.specs.deep_view(),
            resolution: self.resolution.deep_view(),
            game_config: self.game_config.deep_view(),
            preset: self.preset.deep_view(),
        }
    }
}

impl Duplicate for ResolvedGame {
    fn duplicate(&self) -> (r: Self) {
        ResolvedGame {
            appid: self.appid.duplicate(),
            specs: self.specs.duplicate(),
            resolution: self.resolution.duplicate(),
            game_config: self.game_config.duplicate(),
            preset: self.preset.duplicate(),
        }
    }
}

impl Clone for ResolvedGame {
    fn clone(&self) -> (r: Self)
        ensures
            r.deep_view() == self.deep_view(),
    {
        self.duplicate()
    }
}

// ---- Which extensions apply ------------------------------------------------

/// The extensions that apply to an appid, in order.
pub open spec fn applying(exts: Seq<LoadedExtensionView>, appid: Seq<char>) -> Seq<
    LoadedExtensionView,
>
    decreases exts.len(),
{
    if exts.len() == 0 {
        seq![]
    } else if applicable(exts.last().spec.app_ids, appid) {
        applying(exts.drop_last(), appid).push(exts.last())
    } else {
        applying(exts.drop_last(), appid)
    }
}

/// The specs of extensions.
pub open spec fn specs_of(exts: Seq<LoadedExtensionView>) -> Seq<ExtensionView> {
    exts.map_values(|e: LoadedExtensionView| e.spec)
}

/// `wanted` is one of `names`, letter case aside.
pub open spec fn named_in(names: Seq<Seq<char>>, wanted: Seq<char>) -> bool {
    exists|i: int| 0 <= i < names.len() && ascii_lowered(#[trigger] names[i]) == ascii_lowered(wanted)
}

/// One of the `:`-separated desktops of a list is the required one, letter case
/// aside; no list names no desktop.
pub open spec fn runs_desktop(current: Option<Seq<char>>, wanted: Seq<char>) -> bool {
    match current {
        None => false,
        Some(list) => named_in(split_at_char(list, ':'), wanted),
    }
}

/// Whether the running desktop (`current`, which may be a `:`-separated list) is
/// the one that is required.
pub fn desktop_matches(current: Option<&str>, wanted: &str) -> (b: bool)
    ensures
        b == runs_desktop(current.deep_view(), wanted@),
{
    let list = match current {
        Some(l) => l,
        None => {
            return false;
        },
    };
    let parts = split_char(list, ':');
    let want = ascii_lowercase(wanted);
    let ghost d = parts.deep_view();
    let mut i: usize = 0;
    while i < parts.len()
        invariant
            d == parts.deep_view(),
            d == split_at_char(list@, ':'),
            current.deep_view() == Some(list@),
            want@ == ascii_lowered(wanted@),
            i <= parts@.len(),
            forall|j: int| 0 <= j < i ==> ascii_lowered(#[trigger] d[j]) != want@,
        decreases parts@.len() - i,
    {
        assert(d[i as int] == parts@[i as int]@);
        if same_text(ascii_lowercase(parts[i].as_str()).as_str(), want.as_str()) {
            assert(named_in(d, wanted@));
            return true;
        }
        i += 1;
    }
    false
}

/// The folders that extensions are loaded from.
pub open spec fn dirs_searched(override_dir: Option<Seq<char>>, base: Seq<char>) -> Seq<Seq<char>> {
    seq![
        match override_dir {
            Some(dir) => dir,
            None => path_joined(base, "extensions"@),
        },
    ]
}

/// Where extensions are loaded from: where `RITZ_EXTENSIONS_DIR` says, else from
/// the configuration directory.
pub fn extension_dirs(override_dir: Option<String>, paths: &Paths) -> (r: Vec<String>)
    ensures
        r.deep_view() == dirs_searched(override_dir.deep_view(), paths.deep_view()),
{
    let mut out: Vec<String> = Vec::new();
    let dir = match override_dir {
        Some(d) => d,
        None => paths.user_extensions(),
    };
    let ghost d = dir@;
    out.push(dir);
    assert(out.deep_view() =~= seq![d]);
    out
}

/// An extension is loaded on the running desktop: it names none, or this one.
pub open spec fn wanted_on(e: LoadedExtensionView, current: Option<Seq<char>>) -> bool {
    match e.spec.requires_desktop {
        None => true,
        Some(desktop) => runs_desktop(current, desktop),
    }
}

/// The extensions that are loaded on the running desktop.
pub open spec fn on_desktop(
    exts: Seq<LoadedExtensionView>,
    current: Option<Seq<char>>,
) -> Seq<LoadedExtensionView>
    decreases exts.len(),
{
    if exts.len() == 0 {
        seq![]
    } else if wanted_on(exts.last(), current) {
        on_desktop(exts.drop_last(), current).push(exts.last())
    } else {
        on_desktop(exts.drop_last(), current)
    }
}

impl Ordered for LoadedExtension {
    /// By name.
    open spec fn le(a: LoadedExtensionView, b: LoadedExtensionView) -> bool {
        text_le(a.spec.meta.name, b.spec.meta.name)
    }

    fn at_most(&self, other: &Self) -> (b: bool) {
        text_at_most(self.spec.meta.name.as_str(), other.spec.meta.name.as_str())
    }
}

/// The extensions that are offered on a desktop, in order.
pub open spec fn extensions_offered(
    loaded: Seq<LoadedExtensionView>,
    current: Option<Seq<char>>,
) -> Seq<LoadedExtensionView> {
    sorted(on_desktop(loaded, current), order::<LoadedExtension>())
}

/// Takes in the extensions that were loaded: drops those of other desktops, so
/// they are never shown nor applied, and puts the rest in alphabetical order.
pub fn load_extensions(loaded: &Vec<LoadedExtension>, current: Option<&str>) -> (r: Vec<
    LoadedExtension,
>)
    ensures
        r.deep_view() == extensions_offered(loaded.deep_view(), current.deep_view()),
{
    let mut out: Vec<LoadedExtension> = Vec::new();
    let ghost d = loaded.deep_view();
    let ghost c = current.deep_view();
    let mut i: usize = 0;
    assert(out.deep_view() =~= on_desktop(d.take(0), c));
    while i < loaded.len()
        invariant
            d == loaded.deep_view(),
            c == current.deep_view(),
            i <= loaded@.len(),
            out.deep_view() == on_desktop(d.take(i as int), c),
        decreases loaded@.len() - i,
    {
        let e = &loaded[i];
        assert(d.take(i + 1).drop_last() =~= d.take(i as int));
        assert(d.take(i + 1).last() == e.deep_view());
        let keep = match &e.spec.requires_desktop {
            None => true,
            Some(desktop) => desktop_matches(current, desktop.as_str()),
        };
        if keep {
            let ghost before = out.deep_view();
            out.push(e.duplicate());
            assert(out.deep_view() =~= before.push(e.deep_view()));
        }
        i += 1;
    }
    assert(d.take(d.len() as int) =~= d);
    sort(out)
}

// ---- Profiles and what they inherit ----------------------------------------

/// A walk up the chain of parent profiles.
pub struct ChainWalk {
    seen: Vec<String>,
    next: Option<String>,
}

/// A [`ChainWalk`] as contracts speak of it: the profiles that were visited, and
/// the one that comes next.
#[verifier::ext_equal]
pub struct WalkView {
    pub seen: Seq<Seq<char>>,
    pub next: Option<Seq<char>>,
}

impl DeepView for ChainWalk {
    type V = WalkView;

    closed spec fn deep_view(&self) -> WalkView {
        WalkView { seen: self.seen.deep_view(), next: self.next.deep_view() }
    }
}

/// What a walk asks for.
#[derive(Debug, PartialEq, Eq)]
pub enum WalkStep {
    /// The profile to load; its parent is handed to [`ChainWalk::go_on`].
    Load(String),
    /// The chain comes back to a profile that was visited.
    Cycle,
    /// The chain has ended.
    Done,
}

/// A [`WalkStep`] as contracts speak of it.
pub enum StepView {
    Load(Seq<char>),
    Cycle,
    Done,
}

impl DeepView for WalkStep {
    type V = StepView;

    open spec fn deep_view(&self) -> StepView {
        match self {
            WalkStep::Load(name) => StepView::Load(name@),
            WalkStep::Cycle => StepView::Cycle,
            WalkStep::Done => StepView::Done,
        }
    }
}

impl WalkView {
    /// What the walk asks for.
    pub open spec fn step(self) -> StepView {
        match self.next {
            None => StepView::Done,
            Some(name) => if self.seen.contains(name) {
                StepView::Cycle
            } else {
                StepView::Load(name)
            },
        }
    }

    /// The walk after it has asked: a profile that is loaded counts as visited.
    pub open spec fn asked(self) -> WalkView {
        match self.step() {
            StepView::Load(name) => WalkView { seen: self.seen.push(name), next: None },
            _ => self,
        }
    }
}

/// A walk that begins with a profile.
pub open spec fn walk_from(first: Seq<char>) -> WalkView {
    WalkView { seen: seq![], next: Some(first) }
}

/// A walk up from a parent that must not come back to a profile.
pub open spec fn walk_below(profile: Seq<char>, parent: Seq<char>) -> WalkView {
    WalkView { seen: seq![profile], next: Some(parent) }
}

impl ChainWalk {
    /// A walk that begins with `first`.
    pub fn from(first: &str) -> (r: Self)
        ensures
            r.deep_view() == walk_from(first@),
    {
        let r = ChainWalk { seen: Vec::new(), next: Some(first.to_owned()) };
        assert(r.deep_view().seen =~= seq![]);
        r
    }

    /// A walk up from `proposed_parent` that must not come back to `profile`.
    pub fn below(profile: &str, proposed_parent: &str) -> (r: Self)
        ensures
            r.deep_view() == walk_below(profile@, proposed_parent@),
    {
        let mut seen: Vec<String> = Vec::new();
        seen.push(profile.to_owned());
        let r = ChainWalk { seen, next: Some(proposed_parent.to_owned()) };
        assert(r.deep_view().seen =~= seq![profile@]);
        r
    }

    /// The profile to load next, or how the walk has ended.
    pub fn step(&mut self) -> (r: WalkStep)
        ensures
            r.deep_view() == old(self).deep_view().step(),
            final(self).deep_view() == old(self).deep_view().asked(),
    {
        let name = match &self.next {
            None => {
                return WalkStep::Done;
            },
            Some(n) => n.clone(),
        };
        if contains_text(&self.seen, name.as_str()) {
            return WalkStep::Cycle;
        }
        let ghost before = self.seen.deep_view();
        self.seen.push(name.clone());
        self.next = None;
        assert(self.seen.deep_view() =~= before.push(name@));
        WalkStep::Load(name)
    }

    /// Goes on to the parent of the profile that was loaded, if it has one.
    pub fn go_on(&mut self, parent: Option<String>)
        ensures
            final(self).deep_view() == (WalkView {
                next: parent.deep_view(),
                ..old(self).deep_view()
            }),
    {
        self.next = parent;
    }
}

/// The values of a module put into `base`.
pub open spec fn vars_merged(
    base: AuthorsView,
    author: Seq<char>,
    ext: Seq<char>,
    vars: VarsView,
) -> AuthorsView
    decreases vars.len(),
{
    if vars.len() == 0 {
        base
    } else {
        value_set(
            vars_merged(base, author, ext, vars.drop_last()),
            author,
            ext,
            vars.last().0,
            vars.last().1,
        )
    }
}

/// The values of an author's modules put into `base`.
pub open spec fn exts_merged(base: AuthorsView, author: Seq<char>, exts: ExtsView) -> AuthorsView
    decreases exts.len(),
{
    if exts.len() == 0 {
        base
    } else {
        vars_merged(
            exts_merged(base, author, exts.drop_last()),
            author,
            exts.last().0,
            exts.last().1,
        )
    }
}

/// All values of `overlay` put into `base`.
pub open spec fn modules_merged(base: AuthorsView, overlay: AuthorsView) -> AuthorsView
    decreases overlay.len(),
{
    if overlay.len() == 0 {
        base
    } else {
        exts_merged(
            modules_merged(base, overlay.drop_last()),
            overlay.last().0,
            overlay.last().1,
        )
    }
}

/// Puts all values of `overlay` into `base`.
pub fn merge_modules(base: &mut AuthorsMap, overlay: &AuthorsMap)
    ensures
        final(base).deep_view() == modules_merged(old(base).deep_view(), overlay.deep_view()),
{
    let ghost start = base.deep_view();
    let ghost d = overlay.deep_view();
    let n: usize = overlay.len();
    let mut i: usize = 0;
    assert(modules_merged(start, d.take(0)) == start);
    while i < n
        invariant
            d == overlay.deep_view(),
            i <= n == d.len(),
            base.deep_view() == modules_merged(start, d.take(i as int)),
        decreases n - i,
    {
        let author = overlay.key_at(i);
        let exts = overlay.value_at(i);
        let ghost e = exts.deep_view();
        let ghost base0 = base.deep_view();
        let m: usize = exts.len();
        let mut j: usize = 0;
        assert(d.take(i + 1).drop_last() =~= d.take(i as int));
        assert(exts_merged(base0, author@, e.take(0)) == base0);
        while j < m
            invariant
                e == exts.deep_view(),
                j <= m == e.len(),
                base.deep_view() == exts_merged(base0, author@, e.take(j as int)),
            decreases m - j,
        {
            let ext = exts.key_at(j);
            let vars = exts.value_at(j);
            let ghost v = vars.deep_view();
            let ghost base1 = base.deep_view();
            let l: usize = vars.len();
            let mut k: usize = 0;
            assert(e.take(j + 1).drop_last() =~= e.take(j as int));
            assert(vars_merged(base1, author@, ext@, v.take(0)) == base1);
            while k < l
                invariant
                    v == vars.deep_view(),
                    k <= l == v.len(),
                    base.deep_view() == vars_merged(base1, author@, ext@, v.take(k as int)),
                decreases l - k,
            {
                assert(v.take(k + 1).drop_last() =~= v.take(k as int));
                set_stored(
                    base,
                    author.as_str(),
                    ext.as_str(),
                    vars.key_at(k).as_str(),
                    vars.value_at(k).duplicate(),
                );
                k += 1;
            }
            assert(v.take(l as int) =~= v);
            j += 1;
        }
        assert(e.take(m as int) =~= e);
        i += 1;
    }
    assert(d.take(n as int) =~= d);
}

/// The values of a chain of profiles, the first one nearest: the root comes
/// first, and each nearer one goes over it.
pub open spec fn chain_merged(chain: Seq<PresetView>) -> AuthorsView
    decreases chain.len(),
{
    if chain.len() == 0 {
        seq![]
    } else {
        modules_merged(chain_merged(chain.drop_first()), chain[0].modules)
    }
}

/// A profile of nothing but values.
pub open spec fn values_only(modules: AuthorsView) -> PresetView {
    PresetView { name: seq![], modules, pin: None, parent: None }
}

/// Merges a chain of parents, the direct parent first: the root has the lowest
/// priority.
pub fn merge_chain(chain: &Vec<Preset>) -> (r: Preset)
    ensures
        r.deep_view() == values_only(chain_merged(chain.deep_view())),
{
    let mut base = Preset::default();
    let ghost d = chain.deep_view();
    let n: usize = chain.len();
    let mut i: usize = n;
    assert(chain_merged(d.skip(n as int)) =~= seq![]);
    while i > 0
        invariant
            d == chain.deep_view(),
            i <= n == d.len(),
            base.deep_view() == values_only(chain_merged(d.skip(i as int))),
        decreases i,
    {
        i -= 1;
        let ghost rest = d.skip(i as int);
        assert(rest.drop_first() =~= d.skip(i + 1));
        assert(rest[0] == chain@[i as int].deep_view());
        merge_modules(&mut base.modules, &chain[i].modules);
    }
    assert(d.skip(0) =~= d);
    base
}

/// The layer that a profile makes: its own values over those of its parents
/// (`chain`, the direct parent first), or just its own where it has none.
pub open spec fn effective(preset: PresetView, chain: Seq<PresetView>) -> PresetView {
    match preset.parent {
        Some(_) => values_only(modules_merged(chain_merged(chain), preset.modules)),
        None => preset,
    }
}

/// The layer that a profile makes.
pub fn effective_preset(preset: &Preset, chain: &Vec<Preset>) -> (r: Preset)
    ensures
        r.deep_view() == effective(preset.deep_view(), chain.deep_view()),
{
    match &preset.parent {
        Some(_) => {
            let mut base = merge_chain(chain);
            merge_modules(&mut base.modules, &preset.modules);
            base
        },
        None => preset.duplicate(),
    }
}

// ---- Resolving a game ------------------------------------------------------

/// The id that a game goes by: `unknown` where none is known.
pub open spec fn appid_or_unknown(steam: SteamCommandView) -> Seq<char> {
    match steam.appid {
        Some(id) => id,
        None => "unknown"@,
    }
}

/// The id that a game goes by.
pub fn appid_of(steam: &SteamCommand) -> (r: String)
    ensures
        r@ == appid_or_unknown(steam.deep_view()),
{
    match &steam.appid {
        Some(id) => id.clone(),
        None => "unknown".to_owned(),
    }
}

/// The configuration of a game: what is saved, or a new one under its name, or
/// under its id where it has none.
pub open spec fn game_or_new(
    saved: Option<GameConfigView>,
    steam: SteamCommandView,
) -> GameConfigView {
    let appid = appid_or_unknown(steam);
    match saved {
        Some(g) => g,
        None => new_game(
            appid,
            match steam.game_name {
                Some(name) => name,
                None => appid,
            },
        ),
    }
}

/// The configuration of a game: what is saved, or a new one.
pub fn game_config_for(saved: Option<GameConfig>, steam: &SteamCommand) -> (r: GameConfig)
    ensures
        r.deep_view() == game_or_new(saved.deep_view(), steam.deep_view()),
{
    let appid = appid_of(steam);
    match saved {
        Some(g) => g,
        None => {
            let name = match &steam.game_name {
                Some(n) => n.clone(),
                None => appid.clone(),
            };
            GameConfig::new(appid.as_str(), name.as_str())
        },
    }
}

/// The profile that a game builds on: its own choice, or the default one.
pub open spec fn preset_choice(game: GameConfigView, general: GeneralConfigView) -> Option<
    Seq<char>,
> {
    match game.config.modules.preset {
        Some(name) => Some(name),
        None => general.default_preset,
    }
}

/// A game resolved with the profile it builds on, the profile's parents, and the
/// global scope.
pub open spec fn game_resolved(
    ctx: AppContextView,
    game: GameConfigView,
    appid: Seq<char>,
    preset: Option<PresetView>,
    chain: Seq<PresetView>,
    global: PresetView,
) -> ResolvedGameView {
    let specs = specs_of(applying(ctx.extensions, appid));
    let layer = match preset {
        Some(p) => Some(effective(p, chain)),
        None => None,
    };
    ResolvedGameView {
        appid,
        specs,
        resolution: resolved(
            specs,
            LayersView { game: Some(game), preset: layer, global: Some(global) },
        ),
        game_config: game,
        preset,
    }
}

impl AppContext {
    /// Extensions that apply to a given appid (global and appid-scoped).
    pub fn applicable(&self, appid: &str) -> (r: Vec<&LoadedExtension>)
        ensures
            r.deep_view() == applying(self.deep_view().extensions, appid@),
    {
        let mut out: Vec<&LoadedExtension> = Vec::new();
        let ghost d = self.extensions.deep_view();
        let mut i: usize = 0;
        assert(out.deep_view() =~= applying(d.take(0), appid@));
        while i < self.extensions.len()
            invariant
                d == self.extensions.deep_view(),
                i <= self.extensions@.len(),
                out.deep_view() == applying(d.take(i as int), appid@),
            decreases self.extensions@.len() - i,
        {
            let e = &self.extensions[i];
            assert(d.take(i + 1).drop_last() =~= d.take(i as int));
            assert(d.take(i + 1).last() == e.deep_view());
            if e.spec.applies_to(appid) {
                let ghost before = out.deep_view();
                out.push(e);
                assert(out.deep_view() =~= before.push(e.deep_view()));
            }
            i += 1;
        }
        assert(d.take(d.len() as int) =~= d);
        out
    }

    /// The name of the preset that a game builds on: its own, or the default.
    pub fn preset_name_for(&self, game_config: &GameConfig) -> (r: Option<String>)
        ensures
            r.deep_view() == preset_choice(game_config.deep_view(), self.deep_view().general),
    {
        match &game_config.config.modules.preset {
            Some(name) => Some(name.clone()),
            None => self.general.default_preset.duplicate(),
        }
    }

    /// Specs (copied) of the extensions applicable to an appid.
    pub fn specs_for(&self, appid: &str) -> (r: Vec<Extension>)
        ensures
            r.deep_view() == specs_of(applying(self.deep_view().extensions, appid@)),
    {
        let exts = self.applicable(appid);
        let mut out: Vec<Extension> = Vec::new();
        let ghost d = specs_of(exts.deep_view());
        let mut i: usize = 0;
        assert(out.deep_view() =~= d.take(0));
        while i < exts.len()
            invariant
                d == specs_of(exts.deep_view()),
                i <= exts@.len(),
                out.deep_view() == d.take(i as int),
            decreases exts@.len() - i,
        {
            let ghost before = out.deep_view();
            let copy = exts[i].spec.duplicate();
            assert(copy.deep_view() == d[i as int]);
            out.push(copy);
            assert(out.deep_view() =~= before.push(d[i as int]));
            i += 1;
            assert(out.deep_view() =~= d.take(i as int));
        }
        assert(d.take(d.len() as int) =~= d);
        out
    }

    /// Resolves a (possibly unsaved) game config with the profile it builds on,
    /// the profile's parents (the direct one first), and the global scope.
    pub fn resolve_with(
        &self,
        game_config: GameConfig,
        appid: &str,
        preset: Option<Preset>,
        chain: &Vec<Preset>,
        global: &Preset,
    ) -> (r: ResolvedGame)
        ensures
            r.deep_view() == game_resolved(
                self.deep_view(),
                game_config.deep_view(),
                appid@,
                preset.deep_view(),
                chain.deep_view(),
                global.deep_view(),
            ),
    {
        let specs = self.specs_for(appid);
        let layer = match &preset {
            Some(p) => Some(effective_preset(p, chain)),
            None => None,
        };
        let layer_ref = match &layer {
            Some(p) => Some(p),
            None => None,
        };
        let resolution = resolve(specs.as_slice(), Some(&game_config), layer_ref, Some(global));
        ResolvedGame { appid: appid.to_owned(), specs, resolution, game_config, preset }
    }
}

// ---- The launch command of a game ------------------------------------------

/// Each extension with the variables that it sees.
pub open spec fn launch_inputs(specs: Seq<ExtensionView>, r: ResolutionView) -> Seq<InputView> {
    specs.map_values(|s: ExtensionView| InputView { spec: s, vars: r.store_for(id_of(s.meta)) })
}

/// Assembles a launch command from resolved specs and a game command.
pub fn assemble_launch(specs: &[Extension], resolution: &Resolution, game_cmd: &[String]) -> (r:
    Result<LaunchCommand>)
    ensures
        outcome(r) == built(
            launch_inputs(specs.deep_view(), resolution.deep_view()),
            game_cmd.deep_view(),
        ),
{
    let ghost d = specs.deep_view();
    let ghost res = resolution.deep_view();
    let n: usize = specs.len();
    let mut stores: Vec<VarStore> = Vec::new();
    let mut i: usize = 0;
    while i < n
        invariant
            d == specs.deep_view(),
            res == resolution.deep_view(),
            i <= n == specs@.len(),
            stores@.len() == i,
            forall|j: int|
                0 <= j < i ==> (#[trigger] stores@[j]).deep_view() == res.store_for(
                    id_of(d[j].meta),
                ),
        decreases n - i,
    {
        stores.push(resolution.var_store(specs[i].id().as_str()));
        i += 1;
    }
    let mut inputs: Vec<ExtInput> = Vec::new();
    let mut k: usize = 0;
    while k < n
        invariant
            d == specs.deep_view(),
            res == resolution.deep_view(),
            k <= n == specs@.len(),
            stores@.len() == n,
            forall|j: int|
                0 <= j < n ==> (#[trigger] stores@[j]).deep_view() == res.store_for(
                    id_of(d[j].meta),
                ),
            inputs@.len() == k,
            forall|j: int|
                0 <= j < k ==> (#[trigger] inputs@[j]).deep_view() == launch_inputs(d, res)[j],
        decreases n - k,
    {
        assert(stores@[k as int].deep_view() == res.store_for(id_of(d[k as int].meta)));
        inputs.push(ExtInput { spec: &specs[k], vars: &stores[k] });
        k += 1;
    }
    assert(inputs.deep_view() =~= launch_inputs(d, res));
    let slice = inputs.as_slice();
    assert(slice.deep_view() =~= inputs.deep_view());
    build(slice, game_cmd)
}

impl ResolvedGameView {
    /// The details of a field.
    pub open spec fn field(self, ext_id: Seq<char>, var: Seq<char>) -> Option<ResolvedFieldView> {
        match value_of(self.resolution.exts, ext_id) {
            Some(e) => value_of(e.fields, var),
            None => None,
        }
    }

    /// The launch of this game by a command.
    pub open spec fn launch(self, raw: Seq<Seq<char>>) -> Outcome<LaunchCommandView> {
        built(launch_inputs(self.specs, self.resolution), raw)
    }

    /// Whether a field's variable is truthy; unknown ones are not.
    pub open spec fn truthy(self, ext_id: Seq<char>, var: Seq<char>) -> bool {
        match self.field(ext_id, var) {
            Some(f) => f.var.truthy,
            None => false,
        }
    }

    /// The value of a field's variable.
    pub open spec fn value(self, ext_id: Seq<char>, var: Seq<char>) -> Option<Seq<char>> {
        match self.field(ext_id, var) {
            Some(f) => Some(f.var.value),
            None => None,
        }
    }
}

impl ResolvedGame {
    /// Resolved field detail for a variable in an extension.
    pub fn field(&self, ext_id: &str, var: &str) -> (r: Option<&ResolvedField>)
        ensures
            r.deep_view() == self.deep_view().field(ext_id@, var@),
    {
        match self.resolution.exts.get(ext_id) {
            Some(e) => e.fields.get(var),
            None => None,
        }
    }

    /// Whether a field's variable is truthy; unknown ones are not.
    pub fn truthy(&self, ext_id: &str, var: &str) -> (b: bool)
        ensures
            b == self.deep_view().truthy(ext_id@, var@),
    {
        match self.field(ext_id, var) {
            Some(f) => f.var.truthy,
            None => false,
        }
    }

    /// The value of a field's variable.
    pub fn value(&self, ext_id: &str, var: &str) -> (r: Option<&str>)
        ensures
            r.deep_view() == self.deep_view().value(ext_id@, var@),
    {
        match self.field(ext_id, var) {
            Some(f) => Some(f.var.value.as_str()),
            None => None,
        }
    }

    /// Assembles the launch command for this game.
    pub fn build_launch(&self, steam: &SteamCommand) -> (r: Result<LaunchCommand>)
        ensures
            outcome(r) == self.deep_view().launch(steam.deep_view().raw),
    {
        assemble_launch(self.specs.as_slice(), &self.resolution, steam.raw.as_slice())
    }
}

// ---- Saved games -----------------------------------------------------------

impl Ordered for (String, String) {
    /// By the first text, then by the second.
    open spec fn le(a: (Seq<char>, Seq<char>), b: (Seq<char>, Seq<char>)) -> bool {
        if a.0 == b.0 {
            text_le(a.1, b.1)
        } else {
            text_le(a.0, b.0)
        }
    }

    fn at_most(&self, other: &Self) -> (b: bool) {
        if same_text(self.0.as_str(), other.0.as_str()) {
            text_at_most(self.1.as_str(), other.1.as_str())
        } else {
            text_at_most(self.0.as_str(), other.0.as_str())
        }
    }
}

/// The id and the name of saved games.
pub open spec fn game_names(games: Seq<GameConfigView>) -> Seq<(Seq<char>, Seq<char>)> {
    games.map_values(|g: GameConfigView| (g.game.appid, g.game.name))
}

/// The ids and names of the games, in order.
pub open spec fn games_listed(games: Seq<GameConfigView>) -> Seq<(Seq<char>, Seq<char>)> {
    sorted(game_names(games), order::<(String, String)>())
}

/// The saved games as `(appid, name)` pairs, in order.
pub fn list_games(games: &Vec<GameConfig>) -> (r: Vec<(String, String)>)
    ensures
        r.deep_view() == games_listed(games.deep_view()),
{
    let mut out: Vec<(String, String)> = Vec::new();
    let ghost d = game_names(games.deep_view());
    let mut i: usize = 0;
    assert(out.deep_view() =~= d.take(0));
    while i < games.len()
        invariant
            d == game_names(games.deep_view()),
            i <= games@.len(),
            out.deep_view() == d.take(i as int),
        decreases games@.len() - i,
    {
        let ghost before = out.deep_view();
        let pair = (games[i].game.appid.clone(), games[i].game.name.clone());
        assert(pair.deep_view() == d[i as int]);
        out.push(pair);
        assert(out.deep_view() =~= before.push(d[i as int]));
        i += 1;
        assert(out.deep_view() =~= d.take(i as int));
    }
    assert(d.take(d.len() as int) =~= d);
    sort(out)
}

// ---- Laws ------------------------------------------------------------------

proof fn lemma_last<T>(m: crate::ordered::Entries<T>, k: Seq<char>)
    requires
        distinct(m),
        m.len() > 0,
    ensures
        distinct(m.drop_last()),
        value_of(m, k) == if k == m.last().0 {
            Some(m.last().1)
        } else {
            value_of(m.drop_last(), k)
        },
{
    let init = m.drop_last();
    let n = m.len() - 1;
    assert forall|i: int, j: int| 0 <= i < j < init.len() implies (#[trigger] init[i]).0 != (
    #[trigger] init[j]).0 by {
        assert(m[i].0 != m[j].0);
    }
    lemma_found(m, n);
    if k != m.last().0 {
        if has_key(m, k) {
            let i = key_index(m, k);
            assert(0 <= i < m.len() && m[i].0 == k);
            assert(init[i] == m[i]);
            lemma_found(init, i);
        } else if has_key(init, k) {
            let i = key_index(init, k);
            assert(0 <= i < init.len() && init[i].0 == k);
            assert(m[i].0 == k);
        }
    }
}

proof fn lemma_vars_merged(
    base: AuthorsView,
    author: Seq<char>,
    ext: Seq<char>,
    vars: VarsView,
    p: Seq<char>,
    q: Seq<char>,
    r: Seq<char>,
)
    requires
        valid(base),
        distinct(vars),
    ensures
        valid(vars_merged(base, author, ext, vars)),
        stored(vars_merged(base, author, ext, vars), p, q, r) == if p == author && q == ext
            && value_of(vars, r) is Some {
            value_of(vars, r)
        } else {
            stored(base, p, q, r)
        },
    decreases vars.len(),
{
    if vars.len() > 0 {
        lemma_last(vars, r);
        lemma_vars_merged(base, author, ext, vars.drop_last(), p, q, r);
        law_set_then_get(
            vars_merged(base, author, ext, vars.drop_last()),
            author,
            ext,
            vars.last().0,
            vars.last().1,
            p,
            q,
            r,
        );
    }
}

proof fn lemma_exts_merged(
    base: AuthorsView,
    author: Seq<char>,
    exts: ExtsView,
    p: Seq<char>,
    q: Seq<char>,
    r: Seq<char>,
)
    requires
        valid(base),
        crate::config::valid_exts(exts),
    ensures
        valid(exts_merged(base, author, exts)),
        stored(exts_merged(base, author, exts), p, q, r) == match value_of(exts, q) {
            Some(vars) => if p == author && value_of(vars, r) is Some {
                value_of(vars, r)
            } else {
                stored(base, p, q, r)
            },
            None => stored(base, p, q, r),
        },
    decreases exts.len(),
{
    if exts.len() > 0 {
        let init = exts.drop_last();
        lemma_last(exts, q);
        assert(crate::config::valid_exts(init)) by {
            assert forall|i: int| 0 <= i < init.len() implies distinct((#[trigger] init[i]).1) by {
                assert(init[i] == exts[i]);
            }
        }
        assert(distinct(exts[exts.len() - 1].1));
        lemma_exts_merged(base, author, init, p, q, r);
        lemma_vars_merged(
            exts_merged(base, author, init),
            author,
            exts.last().0,
            exts.last().1,
            p,
            q,
            r,
        );
        if q == exts.last().0 && has_key(init, q) {
            let i = key_index(init, q);
            assert(0 <= i < init.len() && init[i].0 == q);
            assert(exts[i].0 != exts[exts.len() - 1].0);
        }
    }
}

/// Merging puts one over the other: a value of the overlay goes before one of
/// the base, and all others of the base stay.
pub proof fn law_overlay_wins(
    base: AuthorsView,
    overlay: AuthorsView,
    author: Seq<char>,
    ext: Seq<char>,
    var: Seq<char>,
)
    requires
        valid(base),
        valid(overlay),
    ensures
        valid(modules_merged(base, overlay)),
        stored(modules_merged(base, overlay), author, ext, var) == match stored(
            overlay,
            author,
            ext,
            var,
        ) {
            Some(v) => Some(v),
            None => stored(base, author, ext, var),
        },
    decreases overlay.len(),
{
    if overlay.len() > 0 {
        let init = overlay.drop_last();
        lemma_last(overlay, author);
        assert(valid(init)) by {
            assert forall|i: int| 0 <= i < init.len() implies crate::config::valid_exts(
                (#[trigger] init[i]).1,
            ) by {
                assert(init[i] == overlay[i]);
            }
        }
        assert(crate::config::valid_exts(overlay[overlay.len() - 1].1));
        law_overlay_wins(base, init, author, ext, var);
        lemma_exts_merged(
            modules_merged(base, init),
            overlay.last().0,
            overlay.last().1,
            author,
            ext,
            var,
        );
        if author == overlay.last().0 && has_key(init, author) {
            let i = key_index(init, author);
            assert(0 <= i < init.len() && init[i].0 == author);
            assert(overlay[i].0 != overlay[overlay.len() - 1].0);
        }
    }
}

/// The value that the nearest profile of a chain stores.
pub open spec fn nearest(
    chain: Seq<PresetView>,
    author: Seq<char>,
    ext: Seq<char>,
    var: Seq<char>,
) -> Option<ValueView>
    decreases chain.len(),
{
    if chain.len() == 0 {
        None
    } else {
        match stored(chain[0].modules, author, ext, var) {
            Some(v) => Some(v),
            None => nearest(chain.drop_first(), author, ext, var),
        }
    }
}

/// Of the profiles in a chain the nearest one that stores a value decides.
pub proof fn law_nearest_parent_wins(
    chain: Seq<PresetView>,
    author: Seq<char>,
    ext: Seq<char>,
    var: Seq<char>,
)
    requires
        forall|i: int| 0 <= i < chain.len() ==> valid((#[trigger] chain[i]).modules),
    ensures
        valid(chain_merged(chain)),
        stored(chain_merged(chain), author, ext, var) == nearest(chain, author, ext, var),
    decreases chain.len(),
{
    if chain.len() > 0 {
        let rest = chain.drop_first();
        assert forall|i: int| 0 <= i < rest.len() implies valid((#[trigger] rest[i]).modules) by {
            assert(rest[i] == chain[i + 1]);
        }
        law_nearest_parent_wins(rest, author, ext, var);
        assert(valid(chain[0].modules));
        law_overlay_wins(chain_merged(rest), chain[0].modules, author, ext, var);
    }
}

/// A profile inherits: its own value decides, and where it has none that of its
/// nearest parent.
pub proof fn law_profile_inherits(
    preset: PresetView,
    chain: Seq<PresetView>,
    author: Seq<char>,
    ext: Seq<char>,
    var: Seq<char>,
)
    requires
        valid(preset.modules),
        preset.parent is Some,
        forall|i: int| 0 <= i < chain.len() ==> valid((#[trigger] chain[i]).modules),
    ensures
        stored(effective(preset, chain).modules, author, ext, var) == match stored(
            preset.modules,
            author,
            ext,
            var,
        ) {
            Some(v) => Some(v),
            None => nearest(chain, author, ext, var),
        },
{
    law_nearest_parent_wins(chain, author, ext, var);
    law_overlay_wins(chain_merged(chain), preset.modules, author, ext, var);
}

/// A walk after `n` steps, where `parent` gives the parent of each profile.
pub open spec fn walked(
    w: WalkView,
    parent: spec_fn(Seq<char>) -> Option<Seq<char>>,
    n: nat,
) -> WalkView
    decreases n,
{
    if n == 0 {
        w
    } else {
        match w.step() {
            StepView::Load(name) => walked(
                WalkView { next: parent(name), ..w.asked() },
                parent,
                (n - 1) as nat,
            ),
            _ => w,
        }
    }
}

/// A walk that goes on has visited one more profile with each step, none of them
/// twice, and each but the last has a parent.
proof fn lemma_walked(
    w: WalkView,
    parent: spec_fn(Seq<char>) -> Option<Seq<char>>,
    n: nat,
    start: int,
)
    requires
        w.seen.no_duplicates(),
        0 <= start <= w.seen.len(),
        forall|i: int| start <= i < w.seen.len() ==> parent(#[trigger] w.seen[i]) is Some,
    ensures
        walked(w, parent, n).seen.no_duplicates(),
        walked(w, parent, n).step() is Load ==> {
            &&& walked(w, parent, n).seen.len() == w.seen.len() + n
            &&& forall|i: int|
                start <= i < walked(w, parent, n).seen.len() ==> parent(
                    #[trigger] walked(w, parent, n).seen[i],
                ) is Some
        },
    decreases n,
{
    if n > 0 {
        if let StepView::Load(name) = w.step() {
            let next = WalkView { next: parent(name), ..w.asked() };
            if parent(name) is Some {
                lemma_walked(next, parent, (n - 1) as nat, start);
            } else {
                assert(next.step() is Done);
                lemma_walked_done(next, parent, (n - 1) as nat);
            }
        }
    }
}

proof fn lemma_walked_done(
    w: WalkView,
    parent: spec_fn(Seq<char>) -> Option<Seq<char>>,
    n: nat,
)
    requires
        !(w.step() is Load),
    ensures
        walked(w, parent, n) == w,
{
}

/// A walk comes to an end: where finitely many profiles have a parent, the chain
/// has ended or come back to itself after one step more than there are of them.
pub proof fn law_walk_ends(
    first: Seq<char>,
    parent: spec_fn(Seq<char>) -> Option<Seq<char>>,
    names: Set<Seq<char>>,
)
    requires
        names.finite(),
        forall|name: Seq<char>| (#[trigger] parent(name)) is Some ==> names.contains(name),
    ensures
        !(walked(
            WalkView { seen: seq![], next: Some(first) },
            parent,
            (names.len() + 1) as nat,
        ).step() is Load),
{
    let w = WalkView { seen: seq![], next: Some(first) };
    let n = (names.len() + 1) as nat;
    let end = walked(w, parent, n);
    lemma_walked(w, parent, n, 0);
    if end.step() is Load {
        let visited = end.seen.to_set();
        assert forall|x: Seq<char>| visited.contains(x) implies names.contains(x) by {
            let i = choose|i: int| 0 <= i < end.seen.len() && end.seen[i] == x;
            assert(parent(end.seen[i]) is Some);
        }
        end.seen.unique_seq_to_set();
        vstd::set_lib::lemma_len_subset(visited, names);
    }
}

/// What a walk says is so: where it finds a cycle, the chain has come back to a
/// profile that it went through, and as long as it goes on, it has not.
pub proof fn law_walk_finds_cycles(
    w: WalkView,
    parent: spec_fn(Seq<char>) -> Option<Seq<char>>,
    n: nat,
)
    requires
        w.seen.no_duplicates(),
    ensures
        walked(w, parent, n).seen.no_duplicates(),
        walked(w, parent, n).step() is Cycle <==> (walked(w, parent, n).next matches Some(name)
            && walked(w, parent, n).seen.contains(name)),
{
    lemma_walked(w, parent, n, w.seen.len() as int);
}

} // verus!
