//! Where the configuration is kept.

use crate::config::{
    authors_flat, default_general, migrate_authors, GameConfig, GameConfigView, GeneralConfig,
    GeneralConfigView, Preset, PresetView,
};
use crate::data::Duplicate;
use crate::sorting::{order, sort, sorted};
use crate::text::{begins, chars_of, matches_at, starts_with, text_of};
use vstd::prelude::*;

verus! {

/// `rel` looked up from `base`: an absolute `rel` stands alone, and a separator
/// is put in between where `base` does not end in one.
pub open spec fn path_joined(base: Seq<char>, rel: Seq<char>) -> Seq<char> {
    if begins(rel, "/"@) {
        rel
    } else if base.len() == 0 || base.last() == '/' {
        base + rel
    } else {
        base + "/"@ + rel
    }
}

/// `rel` looked up from `base`.
pub fn path_join(base: &str, rel: &str) -> (r: String)
    ensures
        r@ == path_joined(base@, rel@),
{
    if starts_with(rel, "/") {
        return rel.to_owned();
    }
    let chars = chars_of(base);
    let mut r = base.to_owned();
    if chars.len() > 0 && chars[chars.len() - 1] != '/' {
        r.append("/");
    }
    r.append(rel);
    r
}

/// The directory that holds the configuration.
#[derive(Debug)]
pub struct Paths {
    pub base: String,
}

impl DeepView for Paths {
    type V = Seq<char>;

    open spec fn deep_view(&self) -> Seq<char> {
        self.base@
    }
}

impl Duplicate for Paths {
    fn duplicate(&self) -> (r: Self) {
        Paths { base: self.base.clone() }
    }
}

impl Clone for Paths {
    fn clone(&self) -> (r: Self)
        ensures
            r.deep_view() == self.deep_view(),
    {
        self.duplicate()
    }
}

/// `name` with `.json` behind it.
pub open spec fn json_name(name: Seq<char>) -> Seq<char> {
    name + ".json"@
}

/// The global scope that a file holds.
pub open spec fn global_read(read: Option<PresetView>) -> PresetView {
    match read {
        Some(p) => PresetView { modules: authors_flat(p.modules), ..p },
        None => PresetView { name: seq![], modules: seq![], pin: None, parent: None },
    }
}

/// The general settings that a file holds.
pub open spec fn general_read(read: Option<GeneralConfigView>) -> GeneralConfigView {
    match read {
        Some(c) => c,
        None => default_general(),
    }
}

/// The game that a file holds.
pub open spec fn game_read(read: Option<GameConfigView>) -> Option<GameConfigView> {
    match read {
        Some(g) => Some(g.with_authors(authors_flat(g.config.modules.authors))),
        None => None,
    }
}

/// The profile that a file holds.
pub open spec fn preset_read(read: Option<PresetView>) -> Option<PresetView> {
    match read {
        Some(p) => Some(PresetView { modules: authors_flat(p.modules), ..p }),
        None => None,
    }
}

/// The file of the general settings.
pub open spec fn general_path(base: Seq<char>) -> Seq<char> {
    path_joined(base, "general.json"@)
}

/// The folder of the profiles.
pub open spec fn presets_path(base: Seq<char>) -> Seq<char> {
    path_joined(base, "profiles"@)
}

/// The folder of the games.
pub open spec fn games_path(base: Seq<char>) -> Seq<char> {
    path_joined(base, "games"@)
}

/// The file of the global settings.
pub open spec fn global_path(base: Seq<char>) -> Seq<char> {
    path_joined(base, "global.json"@)
}

/// The folder of the user's extensions.
pub open spec fn extensions_path(base: Seq<char>) -> Seq<char> {
    path_joined(base, "extensions"@)
}

/// The folder of the plugins.
pub open spec fn plugins_path(base: Seq<char>) -> Seq<char> {
    path_joined(base, "plugins"@)
}

/// The file of a profile.
pub open spec fn preset_path(base: Seq<char>, name: Seq<char>) -> Seq<char> {
    path_joined(path_joined(base, "profiles"@), json_name(name))
}

/// The file of a game.
pub open spec fn game_path(base: Seq<char>, appid: Seq<char>) -> Seq<char> {
    path_joined(path_joined(base, "games"@), json_name(appid))
}

fn with_json(name: &str) -> (r: String)
    ensures
        r@ == json_name(name@),
{
    let mut r = name.to_owned();
    r.append(".json");
    r
}

/// Where the configuration is kept: where `RITZ_CONFIG_DIR` says, else in `ritz`
/// below the user's configuration directory, or below the working directory
/// where there is none.
pub open spec fn base_of(
    override_dir: Option<Seq<char>>,
    config_dir: Option<Seq<char>>,
) -> Seq<char> {
    match override_dir {
        Some(dir) => dir,
        None => match config_dir {
            Some(dir) => path_joined(dir, "ritz"@),
            None => path_joined("."@, "ritz"@),
        },
    }
}

impl Paths {
    /// `$RITZ_CONFIG_DIR` if set, else `ritz` below the configuration directory.
    pub fn discover(override_dir: Option<String>, config_dir: Option<String>) -> (r: Self)
        ensures
            r.deep_view() == base_of(override_dir.deep_view(), config_dir.deep_view()),
    {
        let base = match override_dir {
            Some(dir) => dir,
            None => match config_dir {
                Some(dir) => path_join(dir.as_str(), "ritz"),
                None => path_join(".", "ritz"),
            },
        };
        Paths { base }
    }

    /// The file of the general settings.
    pub fn general(&self) -> (r: String)
        ensures
            r@ == general_path(self.deep_view()),
    {
        path_join(self.base.as_str(), "general.json")
    }

    /// The directory of the profiles.
    pub fn presets_dir(&self) -> (r: String)
        ensures
            r@ == presets_path(self.deep_view()),
    {
        path_join(self.base.as_str(), "profiles")
    }

    /// The file of one profile.
    pub fn preset(&self, name: &str) -> (r: String)
        ensures
            r@ == preset_path(self.deep_view(), name@),
    {
        path_join(self.presets_dir().as_str(), with_json(name).as_str())
    }

    /// The directory of the games.
    pub fn games_dir(&self) -> (r: String)
        ensures
            r@ == games_path(self.deep_view()),
    {
        path_join(self.base.as_str(), "games")
    }

    /// The file of one game.
    pub fn game(&self, appid: &str) -> (r: String)
        ensures
            r@ == game_path(self.deep_view(), appid@),
    {
        path_join(self.games_dir().as_str(), with_json(appid).as_str())
    }

    /// The file of the global scope.
    pub fn global_config(&self) -> (r: String)
        ensures
            r@ == global_path(self.deep_view()),
    {
        path_join(self.base.as_str(), "global.json")
    }

    /// The directory of the extensions.
    pub fn user_extensions(&self) -> (r: String)
        ensures
            r@ == extensions_path(self.deep_view()),
    {
        path_join(self.base.as_str(), "extensions")
    }

    /// The directory of the plugins.
    pub fn plugins_dir(&self) -> (r: String)
        ensures
            r@ == plugins_path(self.deep_view()),
    {
        path_join(self.base.as_str(), "plugins")
    }

    /// The global scope, from what its file holds: nothing where there is none,
    /// and always in the flat layout.
    pub fn load_global_config(read: Option<Preset>) -> (r: Preset)
        ensures
            r.deep_view() == global_read(read.deep_view()),
    {
        let mut cfg = match read {
            Some(p) => p,
            None => Preset::default(),
        };
        let ghost before = cfg.deep_view();
        migrate_authors(&mut cfg.modules);
        assert(read is None ==> authors_flat(before.modules) =~= seq![]);
        cfg
    }

    /// The general settings, from what their file holds.
    pub fn load_general(read: Option<GeneralConfig>) -> (r: GeneralConfig)
        ensures
            r.deep_view() == general_read(read.deep_view()),
    {
        match read {
            Some(c) => c,
            None => GeneralConfig::default(),
        }
    }

    /// A game, from what its file holds, in the flat layout.
    pub fn load_game(read: Option<GameConfig>) -> (r: Option<GameConfig>)
        ensures
            r.deep_view() == game_read(read.deep_view()),
    {
        match read {
            Some(c) => {
                let mut c = c;
                migrate_authors(&mut c.config.modules.authors);
                Some(c)
            },
            None => None,
        }
    }

    /// A profile, from what its file holds, in the flat layout.
    pub fn load_preset(read: Option<Preset>) -> (r: Option<Preset>)
        ensures
            r.deep_view() == preset_read(read.deep_view()),
    {
        match read {
            Some(c) => {
                let mut c = c;
                migrate_authors(&mut c.modules);
                Some(c)
            },
            None => None,
        }
    }

    /// The sorted preset names, from the file names in the profiles directory.
    pub fn list_presets(files: &Vec<String>) -> (r: Vec<String>)
        ensures
            r.deep_view() == names_listed(files.deep_view()),
    {
        sort(json_stems(files))
    }

    /// The sorted game appids, from the file names in the games directory.
    pub fn list_games(files: &Vec<String>) -> (r: Vec<String>)
        ensures
            r.deep_view() == names_listed(files.deep_view()),
    {
        sort(json_stems(files))
    }
}

/// Where a file is written before it is moved to `path`: the name with `.tmp`
/// behind it, whatever dots it holds.
pub open spec fn temp_name(path: Seq<char>) -> Seq<char> {
    path + ".tmp"@
}

/// Where a file is written before it is moved to `path`.
pub fn temp_path(path: &str) -> (r: String)
    ensures
        r@ == temp_name(path@),
{
    let mut r = path.to_owned();
    r.append(".tmp");
    r
}

// ---- File names ------------------------------------------------------------

/// The name of a `.json` file without its extension; `.json` alone has none.
pub open spec fn stem_of(file: Seq<char>) -> Option<Seq<char>> {
    let n = file.len() - ".json"@.len();
    if n > 0 && file.skip(n) == ".json"@ {
        Some(file.take(n))
    } else {
        None
    }
}

/// The names of the `.json` files, without their extension, in order.
pub open spec fn stems(files: Seq<Seq<char>>) -> Seq<Seq<char>>
    decreases files.len(),
{
    if files.len() == 0 {
        seq![]
    } else {
        match stem_of(files.last()) {
            Some(stem) => stems(files.drop_last()).push(stem),
            None => stems(files.drop_last()),
        }
    }
}

/// The names that the files of a folder are for, in order.
pub open spec fn names_listed(files: Seq<Seq<char>>) -> Seq<Seq<char>> {
    sorted(stems(files), order::<String>())
}

/// The name of a `.json` file without its extension.
pub fn json_stem(file: &str) -> (r: Option<String>)
    ensures
        r.deep_view() == stem_of(file@),
{
    let chars = chars_of(file);
    let ext = chars_of(".json");
    if chars.len() <= ext.len() {
        return None;
    }
    let n = chars.len() - ext.len();
    assert(chars@.subrange(n as int, n + ext@.len()) =~= file@.skip(n as int));
    if matches_at(&chars, &ext, n) {
        let stem = text_of(&chars, 0, n);
        assert(stem@ =~= file@.take(n as int));
        Some(stem)
    } else {
        None
    }
}

fn json_stems(files: &Vec<String>) -> (r: Vec<String>)
    ensures
        r.deep_view() == stems(files.deep_view()),
{
    let mut out: Vec<String> = Vec::new();
    let ghost d = files.deep_view();
    let mut i: usize = 0;
    assert(out.deep_view() =~= stems(d.take(0)));
    while i < files.len()
        invariant
            d == files.deep_view(),
            i <= files@.len(),
            out.deep_view() == stems(d.take(i as int)),
        decreases files@.len() - i,
    {
        assert(d.take(i + 1).drop_last() =~= d.take(i as int));
        assert(d.take(i + 1).last() == files@[i as int]@);
        let ghost before = out.deep_view();
        match json_stem(files[i].as_str()) {
            Some(stem) => {
                let ghost s = stem@;
                out.push(stem);
                assert(out.deep_view() =~= before.push(s));
            },
            None => {},
        }
        i += 1;
    }
    assert(d.take(d.len() as int) =~= d);
    out
}

// ---- Laws ------------------------------------------------------------------

/// The stem of the file that a name is stored under is the name.
pub proof fn law_stem_of_json_name(name: Seq<char>)
    requires
        name.len() > 0,
    ensures
        stem_of(json_name(name)) == Some(name),
{
    let file = json_name(name);
    assert(file.skip(name.len() as int) =~= ".json"@);
    assert(file.take(name.len() as int) =~= name);
}

/// Names that do not reach out of their directory are kept in files of their
/// own: two games share a file only where they are one.
pub proof fn law_games_do_not_share_files(base: Seq<char>, a: Seq<char>, b: Seq<char>)
    requires
        !begins(a, "/"@),
        !begins(b, "/"@),
        game_path(base, a) == game_path(base, b),
    ensures
        a == b,
{
    reveal_strlit("/");
    reveal_strlit(".json");
    let dir = path_joined(base, "games"@);
    let pa = json_name(a);
    let pb = json_name(b);
    assert(!begins(pa, "/"@)) by {
        if begins(pa, "/"@) {
            assert(pa.take(1)[0] == '/');
            if a.len() > 0 {
                assert(a[0] == pa[0]);
                assert(a.take(1) =~= "/"@);
            }
        }
    }
    assert(!begins(pb, "/"@)) by {
        if begins(pb, "/"@) {
            assert(pb.take(1)[0] == '/');
            if b.len() > 0 {
                assert(b[0] == pb[0]);
                assert(b.take(1) =~= "/"@);
            }
        }
    }
    let front = if dir.len() == 0 || dir.last() == '/' {
        dir
    } else {
        dir + "/"@
    };
    let n = front.len() as int;
    assert(game_path(base, a).skip(n) =~= pa);
    assert(game_path(base, b).skip(n) =~= pb);
    assert(pa.take(pa.len() - 5) =~= a);
    assert(pb.take(pb.len() - 5) =~= b);
}

} // verus!
