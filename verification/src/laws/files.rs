//! Where the configuration is kept, and what is read from it.

use vstd::prelude::*;

use crate::backends::hypr_monctl::to_be_loaded;
use crate::backends::lsfg::{activated_text, conf_at, identified};
use crate::builder::EnvActionView;
use crate::config::{
    authors_flat, default_general, is_nested, objects_merged, vars_flat, GameConfigView,
    GeneralConfigView, InheritanceDisplayMode, PresetView, VarsView, AuthorsView,
};
use crate::context::dirs_searched;
use crate::error::ErrorView;
use crate::number::digits_of;
use crate::ordered::{distinct, law_put, value_of, Entries};
use crate::paths::{
    base_of, extensions_path, game_path, game_read, games_path, general_path, general_read,
    global_path, global_read, json_name, path_joined, plugins_path, preset_path, preset_read,
    presets_path, stem_of, stems, temp_name,
};
use crate::text::{begins, holds_text, stands_at};
use crate::value::ValueView;

verus! {

/// A path that does not begin with a slash lies below the base, one slash between
/// them; one that does stands alone.
pub proof fn law_path_joined(base: Seq<char>, rel: Seq<char>)
    ensures
        begins(rel, "/"@) ==> path_joined(base, rel) == rel,
        !begins(rel, "/"@) && base.len() > 0 && base.last() != '/' ==> path_joined(base, rel)
            == base + seq!['/'] + rel,
        !begins(rel, "/"@) && base.len() > 0 && base.last() == '/' ==> path_joined(base, rel)
            == base + rel,
        !begins(rel, "/"@) && base.len() == 0 ==> path_joined(base, rel) == rel,
{
    reveal_strlit("/");
    assert("/"@ =~= seq!['/']);
    if base.len() == 0 {
        assert(base + rel =~= rel);
    }
}

proof fn lemma_plain(rel: Seq<char>)
    requires
        rel.len() > 0,
        rel[0] != '/',
    ensures
        !begins(rel, "/"@),
{
    reveal_strlit("/");
    if begins(rel, "/"@) {
        assert(rel.take(1)[0] == "/"@[0]);
        assert(rel[0] == '/');
    }
}

/// Every file of the configuration has its own place below the base.
pub proof fn law_places(base: Seq<char>, name: Seq<char>)
    requires
        base.len() > 0,
        base.last() != '/',
        name.len() > 0,
        name[0] != '/',
    ensures
        general_path(base) == base + seq!['/'] + "general.json"@,
        global_path(base) == base + seq!['/'] + "global.json"@,
        presets_path(base) == base + seq!['/'] + "profiles"@,
        games_path(base) == base + seq!['/'] + "games"@,
        extensions_path(base) == base + seq!['/'] + "extensions"@,
        plugins_path(base) == base + seq!['/'] + "plugins"@,
        preset_path(base, name) == presets_path(base) + seq!['/'] + (name + ".json"@),
        game_path(base, name) == games_path(base) + seq!['/'] + (name + ".json"@),
{
    reveal_strlit("general.json");
    reveal_strlit("global.json");
    reveal_strlit("profiles");
    reveal_strlit("games");
    reveal_strlit("extensions");
    reveal_strlit("plugins");
    lemma_plain("general.json"@);
    lemma_plain("global.json"@);
    lemma_plain("profiles"@);
    lemma_plain("games"@);
    lemma_plain("extensions"@);
    lemma_plain("plugins"@);
    lemma_plain(name + ".json"@);
    law_path_joined(base, "general.json"@);
    law_path_joined(base, "global.json"@);
    law_path_joined(base, "profiles"@);
    law_path_joined(base, "games"@);
    law_path_joined(base, "extensions"@);
    law_path_joined(base, "plugins"@);
    law_path_joined(presets_path(base), name + ".json"@);
    law_path_joined(games_path(base), name + ".json"@);
    assert(presets_path(base).last() == "profiles"@.last());
    assert(games_path(base).last() == "games"@.last());
}

/// The base is where it is overridden to, else the folder `ritz` in the
/// configuration directory, else in the current one.
pub proof fn law_base(dir: Seq<char>, config: Option<Seq<char>>)
    requires
        dir.len() > 0,
        dir.last() != '/',
    ensures
        base_of(Some(dir), config) == dir,
        base_of(None, Some(dir)) == dir + seq!['/'] + "ritz"@,
        base_of(None, None) == "."@ + seq!['/'] + "ritz"@,
{
    reveal_strlit("ritz");
    reveal_strlit(".");
    lemma_plain("ritz"@);
    law_path_joined(dir, "ritz"@);
    law_path_joined("."@, "ritz"@);
}

/// Extensions are searched where they are overridden to, else below the base.
pub proof fn law_extension_folders(dir: Seq<char>, base: Seq<char>)
    ensures
        dirs_searched(Some(dir), base) == seq![dir],
        dirs_searched(None, base) == seq![extensions_path(base)],
{
}

/// A file is written beside its place first.
pub proof fn law_temp_name(path: Seq<char>)
    ensures
        temp_name(path) == path + ".tmp"@,
        temp_name(path) != path,
{
    reveal_strlit(".tmp");
    assert(temp_name(path).len() == path.len() + 4);
}

/// Listed are the names of the files that end in `.json` and have one, in order.
pub proof fn law_stems(files: Seq<Seq<char>>, name: Seq<char>, other: Seq<char>)
    requires
        name.len() > 0,
        forall|stem: Seq<char>| other != #[trigger] json_name(stem),
    ensures
        stems(seq![]) == Seq::<Seq<char>>::empty(),
        stems(files.push(name + ".json"@)) == stems(files).push(name),
        stems(files.push(other)) == stems(files),
        stem_of(".json"@) is None,
{
    let f = name + ".json"@;
    assert(files.push(f).drop_last() =~= files);
    assert(files.push(other).drop_last() =~= files);
    let n = name.len() as int;
    assert(f.skip(n) =~= ".json"@);
    assert(f.take(n) =~= name);
    if let Some(stem) = stem_of(other) {
        let m = other.len() - ".json"@.len();
        assert(other =~= other.take(m) + other.skip(m));
        assert(other == json_name(stem));
    }
}

/// What a file holds is taken as it is, but for values in the nested layout, which
/// are brought to the flat one; where there is no file, the general settings are
/// the defaults, the global scope is empty, and there is no game and no profile.
pub proof fn law_files_are_read(
    general: GeneralConfigView,
    p: PresetView,
    g: GameConfigView,
)
    ensures
        general_read(Some(general)) == general,
        general_read(None) == default_general(),
        global_read(Some(p)).modules == authors_flat(p.modules),
        global_read(Some(p)).name == p.name && global_read(Some(p)).pin == p.pin && global_read(
            Some(p),
        ).parent == p.parent,
        global_read(None).modules.len() == 0 && global_read(None).parent is None,
        preset_read(None) is None,
        preset_read(Some(p)) matches Some(q) && q.modules == authors_flat(p.modules) && q.name
            == p.name && q.pin == p.pin && q.parent == p.parent,
        game_read(None) is None,
        game_read(Some(g)) matches Some(h) && h.config.modules.authors == authors_flat(
            g.config.modules.authors,
        ) && h.game == g.game && h.config.general == g.config.general && h.config.modules.preset
            == g.config.modules.preset,
{
}

/// The defaults: three seconds of splash, no profile, and the editor's close
/// button launches.
pub proof fn law_defaults()
    ensures
        default_general().splash_timeout_secs == 3,
        default_general().default_preset is None,
        default_general().mono_ui,
        !default_general().touch_mode,
        !default_general().full_width,
        default_general().editor_close_launches,
        !default_general().dynamic_preview,
        default_general().inheritance_display == InheritanceDisplayMode::Color,
        default_general().show_field_inheritance,
{
}

/// Only values all of which are objects are nested, and there are some; their
/// members become the values, a later one winning over an earlier one.
pub proof fn law_nested_values(
    vars: VarsView,
    version: Seq<char>,
    obj: Seq<(Seq<char>, ValueView)>,
    var: Seq<char>,
    value: ValueView,
    other: Seq<char>,
)
    requires
        distinct(objects_merged(vars.push((version, ValueView::Object(obj))))),
    ensures
        (exists|i: int| 0 <= i < vars.len() && !((#[trigger] vars[i]).1 is Object)) ==> vars_flat(
            vars,
        ) == vars,
        is_nested(vars) ==> vars_flat(vars) == objects_merged(vars),
        objects_merged(seq![]) == Seq::<(Seq<char>, ValueView)>::empty(),
        objects_merged(vars.push((version, ValueView::Object(seq![])))) == objects_merged(vars),
        ({
            let more = objects_merged(
                vars.push((version, ValueView::Object(obj.push((var, value))))),
            );
            let before = objects_merged(vars.push((version, ValueView::Object(obj))));
            &&& value_of(more, var) == Some(value)
            &&& other != var ==> value_of(more, other) == value_of(before, other)
        }),
{
    let a = vars.push((version, ValueView::Object(obj)));
    let b = vars.push((version, ValueView::Object(obj.push((var, value)))));
    let c = vars.push((version, ValueView::Object(seq![])));
    assert(a.drop_last() =~= vars);
    assert(b.drop_last() =~= vars);
    assert(c.drop_last() =~= vars);
    assert(obj.push((var, value)).drop_last() =~= obj);
    law_put(objects_merged(a), var, value, other);
}

/// The settings of lsfg-vk are where they are said to be, else in the user's
/// configuration directory.
pub proof fn law_lsfg_file(given: Seq<char>, dir: Seq<char>, config: Option<Seq<char>>)
    requires
        dir.len() > 0,
        dir.last() != '/',
    ensures
        conf_at(Some(given), config) == given,
        conf_at(None, Some(dir)) == dir + seq!['/'] + "lsfg-vk/conf.toml"@,
        conf_at(None, None) == "."@ + seq!['/'] + "lsfg-vk/conf.toml"@,
{
    reveal_strlit("lsfg-vk/conf.toml");
    reveal_strlit(".");
    lemma_plain("lsfg-vk/conf.toml"@);
    law_path_joined(dir, "lsfg-vk/conf.toml"@);
    law_path_joined("."@, "lsfg-vk/conf.toml"@);
}

/// The game is known to lsfg-vk by the launcher's name, and its other variables
/// are left alone.
pub proof fn law_identified(env: Entries<EnvActionView>, other: Seq<char>)
    requires
        distinct(env),
    ensures
        value_of(identified(env), "LSFG_PROCESS"@) == Some(
            EnvActionView::Assign("RitzLauncher"@),
        ),
        other != "LSFG_PROCESS"@ ==> value_of(identified(env), other) == value_of(env, other),
{
    law_put(env, "LSFG_PROCESS"@, EnvActionView::Assign("RitzLauncher"@), other);
}

/// The notification tells the multiplier.
pub proof fn law_activated_text(n: int)
    ensures
        activated_text(n) == "Frame generation multiplier set to "@ + digits_of(n) + "x"@,
{
}

/// A plugin is loaded unless its name stands among those that are listed.
pub proof fn law_plugin_is_loaded_once(before: Seq<char>, name: Seq<char>, after: Seq<char>)
    ensures
        !to_be_loaded(Some(name), Some(before + name + after)),
        to_be_loaded(None, Some(before)),
        to_be_loaded(Some(name), None),
        (forall|at: int| !stands_at(before, name, at)) ==> to_be_loaded(Some(name), Some(before)),
{
    let all = before + name + after;
    let at = before.len() as int;
    assert(all.subrange(at, at + name.len()) =~= name);
    assert(stands_at(all, name, at));
    assert(holds_text(all, name));
}

/// Every error says what it is about.
pub proof fn law_messages(a: Seq<char>, b: Seq<char>)
    ensures
        ErrorView::Condition(a).message() == "condition parse error: "@ + a,
        (ErrorView::InvalidExtension { id: a, reason: b }).message() == "invalid extension `"@ + a
            + "`: "@ + b,
        (ErrorView::Io { path: a, source: b }).message() == "io error at "@ + a + ": "@ + b,
        (ErrorView::Json { path: a, source: b }).message() == "json error at "@ + a + ": "@ + b,
{
}

/// The values are brought to the flat layout module by module: every author and
/// every module keeps its name and its place.
pub proof fn law_flat_parts(a: AuthorsView, i: int, j: int)
    requires
        0 <= i < a.len(),
        0 <= j < a[i].1.len(),
    ensures
        authors_flat(a).len() == a.len(),
        authors_flat(a)[i].0 == a[i].0,
        authors_flat(a)[i].1.len() == a[i].1.len(),
        authors_flat(a)[i].1[j].0 == a[i].1[j].0,
        authors_flat(a)[i].1[j].1 == vars_flat(a[i].1[j].1),
{
}

} // verus!
