use std::collections::HashMap;

use ritz::config::{
    default_splash, default_true, lookup, migrate_authors, prune, put_vars, set_stored, AuthorsMap,
    GameConfig, GeneralConfig, InheritanceDisplayMode, Preset, VarMap,
};
use ritz::ordered::OrderedMap;
use ritz::paths::{json_stem, path_join, temp_path, Paths};
use ritz::remap::{
    all_scopes, snapshot_config_to_fork, remap_module_config, remap_one_scope, migrate_renamed_module, visit_scope,
    RemapPlan, Scope, Sweep,
};
use ritz::value::{Json, Number};

fn num(n: i64) -> Json {
    Json::Number(Number { text: n.to_string() })
}

fn text(s: &str) -> Json {
    Json::String(s.to_string())
}

/// A JSON value read by serde_json, as the library holds it.
fn converted(v: &serde_json::Value) -> Json {
    match v {
        serde_json::Value::Null => Json::Null,
        serde_json::Value::Bool(b) => Json::Bool(*b),
        serde_json::Value::Number(n) => Json::Number(Number { text: n.to_string() }),
        serde_json::Value::String(s) => Json::String(s.clone()),
        serde_json::Value::Array(a) => Json::Array(a.iter().map(converted).collect()),
        serde_json::Value::Object(o) => {
            Json::Object(o.iter().map(|(k, v)| (k.clone(), converted(v))).collect())
        }
    }
}

fn authors_from(json: &str) -> AuthorsMap {
    let v: serde_json::Value = serde_json::from_str(json).unwrap();
    let mut out: AuthorsMap = OrderedMap::new();
    for (author, exts) in v.as_object().unwrap() {
        let mut em = OrderedMap::new();
        for (ext, vars) in exts.as_object().unwrap() {
            let mut vm: VarMap = OrderedMap::new();
            for (name, value) in vars.as_object().unwrap() {
                vm.insert(name.clone(), converted(value));
            }
            em.insert(ext.clone(), vm);
        }
        out.insert(author.clone(), em);
    }
    out
}

fn sorted(mut v: Vec<String>) -> Vec<String> {
    v.sort();
    v
}

#[test]
fn a_game_keeps_what_is_set() {
    let mut g = GameConfig::new("730", "Counter-Strike 2");
    g.config.modules.preset = Some("FPS".into());
    g.set_value("Ritze", "amd", "radv_aco", Json::Bool(true));
    g.set_value("Ritze", "gamescope", "backend", text("sdl"));

    assert_eq!(g.game.appid, "730");
    assert_eq!(g.config.modules.preset.as_deref(), Some("FPS"));
    assert_eq!(g.get_value("Ritze", "amd", "radv_aco"), Some(&Json::Bool(true)));
    assert_eq!(g.get_value("Ritze", "gamescope", "backend"), Some(&text("sdl")));
}

#[test]
fn unset_prunes_empty_maps() {
    let mut g = GameConfig::new("730", "cs2");
    g.set_value("Ritze", "amd", "radv_aco", Json::Bool(true));
    g.unset_value("Ritze", "amd", "radv_aco");
    assert!(g.config.modules.authors.is_empty());
}

#[test]
fn preset_lookup() {
    let preset = Preset {
        name: "FPS".into(),
        modules: authors_from(r#"{ "Ritze": { "amd": { "radv_aco": true } } }"#),
        pin: None,
        parent: None,
    };
    assert_eq!(preset.get_value("Ritze", "amd", "radv_aco"), Some(&Json::Bool(true)));
}

#[test]
fn remap_module_config_moves_renames_drops_and_clobber_guards() {
    let mut a = authors_from(
        r#"{
            "Ritze": {
                "Old": { "keep": 1, "ren": 2, "gone": 3, "clash": 4 },
                "New": { "clash": 100 }
            }
        }"#,
    );
    let mut rename: OrderedMap<String> = OrderedMap::new();
    rename.insert("ren".to_string(), "ren2".to_string());
    let drop = vec!["gone".to_string()];

    let dropped =
        remap_module_config(&mut a, ("Ritze", "Old"), ("Ritze", "New"), &rename, &drop);

    // Values moved; renamed var under its new name.
    assert_eq!(lookup(&a, "Ritze", "New", "keep"), Some(&num(1)));
    assert_eq!(lookup(&a, "Ritze", "New", "ren2"), Some(&num(2)));
    // Clobber-guard: pre-existing destination value untouched.
    assert_eq!(lookup(&a, "Ritze", "New", "clash"), Some(&num(100)));
    // Dropped var never landed.
    assert!(lookup(&a, "Ritze", "New", "gone").is_none());
    // Copy-only: source left intact.
    assert_eq!(a.get("Ritze").unwrap().get("Old").unwrap().len(), 4);
    // Reported: the drop-set var and the clobber-skipped var (source names;
    // order follows the map's iteration order, so compare as a set).
    assert_eq!(sorted(dropped), vec!["clash".to_string(), "gone".to_string()]);

    // Idempotent w.r.t. the map: a second pass changes nothing.
    let snapshot = format!("{:?}", a);
    let dropped2 =
        remap_module_config(&mut a, ("Ritze", "Old"), ("Ritze", "New"), &rename, &drop);
    assert_eq!(format!("{:?}", a), snapshot, "second remap must not mutate the map");
    // Everything now lands nowhere (dest populated / dropped).
    assert_eq!(
        sorted(dropped2),
        vec![
            "clash".to_string(),
            "gone".to_string(),
            "keep".to_string(),
            "ren".to_string()
        ]
    );
}

#[test]
fn list_games_returns_stems() {
    // Non-JSON is ignored.
    let files =
        vec!["notes.txt".to_string(), "2483190.json".to_string(), "244210.json".to_string()];
    assert_eq!(Paths::list_games(&files), vec!["244210", "2483190"]);
    assert_eq!(Paths::list_presets(&files), vec!["244210", "2483190"]);
}

#[test]
fn remap_all_scopes_moves_across_every_scope_kind() {
    let paths = Paths { base: "/c".to_string() };
    // Files by path, each with what it holds of modules.
    let mut files: HashMap<String, AuthorsMap> = HashMap::new();
    // --- scopes that HOLD the module config (must move) ---
    files.insert(paths.global_config(), authors_from(r#"{"Ritze":{"Old":{"v":1}}}"#));
    files.insert(paths.preset("p1"), authors_from(r#"{"Ritze":{"Old":{"v":2}}}"#));
    files.insert(paths.game("100"), authors_from(r#"{"Ritze":{"Old":{"v":3}}}"#));
    // --- untouched scopes (different module) ---
    files.insert(paths.preset("p2"), authors_from(r#"{"Other":{"Mod":{"x":9}}}"#));
    files.insert(paths.game("200"), authors_from(r#"{"Other":{"Mod":{"x":9}}}"#));

    let plan = migrate_renamed_module(("Ritze", "Old"), ("Ritze", "New"), &OrderedMap::new());
    let presets = vec!["p1".to_string(), "p2".to_string()];
    let games = vec!["100".to_string(), "200".to_string()];
    let mut sweep = Sweep::start(paths.clone(), plan, &presets, &games);
    let mut written = Vec::new();
    while let Some(scope) = sweep.next_scope() {
        let held = files.get(&scope.file(&paths)).cloned();
        if let Some((file, values)) = sweep.take(held) {
            files.insert(file.clone(), values);
            written.push(file);
        }
    }
    let reports = sweep.reports;
    assert!(reports.is_empty(), "clean move drops nothing: {reports:?}");

    // Global, profile and game moved + source pruned.
    for (file, v) in
        [(paths.global_config(), 1), (paths.preset("p1"), 2), (paths.game("100"), 3)]
    {
        let a = files.get(&file).unwrap();
        assert_eq!(lookup(a, "Ritze", "New", "v"), Some(&num(v)));
        assert!(!a.get("Ritze").unwrap().contains_key("Old"));
    }
    // Untouched files are not rewritten, and no file is made.
    assert_eq!(written, vec!["/c/global.json", "/c/profiles/p1.json", "/c/games/100.json"]);
    assert_eq!(files.len(), 5);
    for file in [paths.preset("p2"), paths.game("200")] {
        assert_eq!(lookup(files.get(&file).unwrap(), "Other", "Mod", "x"), Some(&num(9)));
    }
}

#[test]
fn a_visit_tells_whether_a_scope_changed() {
    let plan = migrate_renamed_module(("Ritze", "Old"), ("Ritze", "New"), &OrderedMap::new());
    let scopes = all_scopes(&vec!["p1".to_string()], &vec!["100".to_string()]);
    assert_eq!(
        scopes,
        vec![Scope::Global, Scope::Profile("p1".into()), Scope::Game("100".into())]
    );
    let mut a = authors_from(r#"{"Ritze":{"Old":{"v":1}}}"#);
    let out = visit_scope(&scopes[0], &mut a, &plan);
    assert!(out.changed && out.report.is_none());
    let mut other = authors_from(r#"{"Other":{"Mod":{"x":9}}}"#);
    let out = visit_scope(&scopes[1], &mut other, &plan);
    assert!(!out.changed && out.report.is_none());
}

#[test]
fn a_profile_is_written_to_the_file_it_comes_from() {
    // The name that a profile goes by need not be that of its file.
    let plan = migrate_renamed_module(("Ritze", "Old"), ("Ritze", "New"), &OrderedMap::new());
    let paths = Paths { base: "/c/".to_string() };
    let mut sweep = Sweep::start(paths, plan, &vec!["p1".to_string()], &vec![]);
    assert!(sweep.take(None).is_none());
    let (file, _) = sweep.take(Some(authors_from(r#"{"Ritze":{"Old":{"v":2}}}"#))).unwrap();
    assert_eq!(file, "/c/profiles/p1.json");
}

#[test]
fn migrate_flattens_old_version_layer() {
    let mut authors = authors_from(r#"{ "Ritze": { "Core": { "1.0": { "kbd_layout": "de" } } } }"#);
    migrate_authors(&mut authors);
    assert_eq!(lookup(&authors, "Ritze", "Core", "kbd_layout"), Some(&text("de")));
    // Already-flat data is left untouched.
    let mut flat = authors_from(r#"{ "Ritze": { "Core": { "kbd_layout": "us" } } }"#);
    migrate_authors(&mut flat);
    assert_eq!(lookup(&flat, "Ritze", "Core", "kbd_layout"), Some(&text("us")));
    // Migrating twice is migrating once.
    let once = format!("{:?}", authors);
    migrate_authors(&mut authors);
    assert_eq!(format!("{:?}", authors), once);
}

#[test]
fn a_set_value_is_read_back_and_unset_again() {
    let mut p = Preset::default();
    p.set_value("A", "e", "x", num(1));
    p.set_value("A", "e", "y", num(2));
    p.set_value("A", "e", "x", num(3));
    assert_eq!(p.get_value("A", "e", "x"), Some(&num(3)));
    assert_eq!(p.get_value("A", "e", "y"), Some(&num(2)));
    assert_eq!(p.get_value("A", "f", "x"), None);
    p.unset_value("A", "e", "x");
    assert_eq!(p.get_value("A", "e", "x"), None);
    assert_eq!(p.get_value("A", "e", "y"), Some(&num(2)));
    p.unset_value("B", "e", "x");
    p.unset_value("A", "e", "y");
    assert!(p.modules.is_empty());
}

#[test]
fn stored_maps_are_kept_tidy() {
    let mut a: AuthorsMap = OrderedMap::new();
    set_stored(&mut a, "A", "e", "x", num(1));
    put_vars(&mut a, "A", "e", OrderedMap::new());
    assert!(lookup(&a, "A", "e", "x").is_none());
    prune(&mut a, "A", "e");
    assert!(a.is_empty());
}

#[test]
fn general_defaults() {
    let g = GeneralConfig::default();
    assert_eq!(g.splash_timeout_secs, 3);
    assert_eq!(default_splash(), 3);
    assert!(default_true());
    assert!(g.mono_ui);
    assert!(!g.touch_mode);
    assert!(g.default_preset.is_none());
    assert_eq!(g.inheritance_display, InheritanceDisplayMode::default());
    let p = Preset::default();
    assert_eq!(p.name, "");
    assert!(p.pin.is_none() && p.parent.is_none());
}

#[test]
fn a_fork_copies_and_a_rename_moves() {
    let json = r#"{"Ritze":{"Old":{"v":1}}}"#;
    let mut a = authors_from(json);
    assert!(remap_one_scope(&mut a, &snapshot_config_to_fork(("Ritze", "Old"), ("Me", "Mine"))).is_empty());
    assert_eq!(lookup(&a, "Ritze", "Old", "v"), Some(&num(1)));
    assert_eq!(lookup(&a, "Me", "Mine", "v"), Some(&num(1)));

    let mut rename: OrderedMap<String> = OrderedMap::new();
    rename.insert("v".into(), "w".into());
    let mut a = authors_from(json);
    assert!(remap_one_scope(&mut a, &migrate_renamed_module(("Ritze", "Old"), ("Me", "Mine"), &rename))
        .is_empty());
    assert_eq!(lookup(&a, "Me", "Mine", "w"), Some(&num(1)));
    assert!(!a.contains_key("Ritze"));
}

#[test]
fn a_rename_in_place_keeps_what_collides() {
    // `a` cannot take the name of `b`, which is taken: nothing is lost.
    let mut rename: OrderedMap<String> = OrderedMap::new();
    rename.insert("a".into(), "b".into());
    let mut a = authors_from(r#"{"R":{"M":{"a":1,"b":2}}}"#);
    let dropped = remap_one_scope(&mut a, &migrate_renamed_module(("R", "M"), ("R", "M"), &rename));
    assert_eq!(lookup(&a, "R", "M", "b"), Some(&num(2)));
    assert!(dropped.contains(&"a".to_string()));
}

#[test]
fn what_landed_nowhere_is_reported_with_its_scope() {
    let plan = RemapPlan {
        from: ("R".into(), "Old".into()),
        to: ("R".into(), "New".into()),
        rename: OrderedMap::new(),
        drop: vec!["x".into()],
        remove_source: true,
    };
    let mut a = authors_from(r#"{"R":{"Old":{"x":1,"y":2}}}"#);
    let out = visit_scope(&Scope::Game("730".into()), &mut a, &plan);
    assert!(out.changed);
    let (label, vars) = out.report.unwrap();
    assert_eq!(label, Scope::Game("730".into()).label());
    assert_eq!(vars, vec!["x"]);
}

#[test]
fn paths_lie_under_the_base() {
    let p = Paths::discover(None, Some("/home/u/.config".into()));
    assert_eq!(p.general(), format!("{}/general.json", p.base));
    assert_eq!(p.preset("FPS"), format!("{}/profiles/FPS.json", p.base));
    assert_eq!(p.game("730"), format!("{}/games/730.json", p.base));
    assert_eq!(p.global_config(), format!("{}/global.json", p.base));
    assert_eq!(p.user_extensions(), format!("{}/extensions", p.base));
    assert_eq!(p.plugins_dir(), format!("{}/plugins", p.base));
    assert_eq!(p.games_dir(), format!("{}/games", p.base));
    assert_eq!(p.presets_dir(), format!("{}/profiles", p.base));
    assert!(p.base.starts_with("/home/u/.config"));
    assert_eq!(Paths::discover(Some("/x".into()), Some("/y".into())).base, "/x");
}

#[test]
fn joining_paths() {
    for (a, b) in [("a", "b"), ("a/", "b"), ("", "b"), ("a", "/b"), ("/", "b"), ("a", "")] {
        assert_eq!(path_join(a, b), std::path::Path::new(a).join(b).to_str().unwrap());
    }
}

#[test]
fn stems_of_json_files() {
    assert_eq!(json_stem("a.json").as_deref(), Some("a"));
    assert_eq!(json_stem("a.b.json").as_deref(), Some("a.b"));
    assert_eq!(json_stem("a.JSON"), None);
    assert_eq!(json_stem(".json"), None);
    assert_eq!(json_stem("json"), None);
    assert_ne!(temp_path("/x/a.json"), "/x/a.json");
}

#[test]
fn what_is_read_is_migrated() {
    let old = r#"{"R":{"M":{"1.0":{"v":1}}}}"#;
    let preset = || Preset {
        name: "p".into(),
        modules: authors_from(old),
        pin: Some(2),
        parent: None,
    };
    let g = Paths::load_global_config(Some(preset()));
    assert_eq!(g.get_value("R", "M", "v"), Some(&num(1)));
    assert!(Paths::load_global_config(None).modules.is_empty());
    let p = Paths::load_preset(Some(preset())).unwrap();
    assert_eq!(p.get_value("R", "M", "v"), Some(&num(1)));
    assert_eq!(p.pin, Some(2));
    assert!(Paths::load_preset(None).is_none());
    let mut game = GameConfig::new("1", "g");
    game.config.modules.authors = authors_from(old);
    let game = Paths::load_game(Some(game)).unwrap();
    assert_eq!(game.get_value("R", "M", "v"), Some(&num(1)));
    assert!(Paths::load_game(None).is_none());
    assert_eq!(Paths::load_general(None).splash_timeout_secs, 3);
}

#[test]
fn a_sweep_visits_every_scope_in_turn() {
    let plan = RemapPlan {
        from: ("R".into(), "Old".into()),
        to: ("R".into(), "New".into()),
        rename: OrderedMap::new(),
        drop: vec!["x".into()],
        remove_source: true,
    };
    let paths = Paths { base: "/c".to_string() };
    let mut sweep = Sweep::start(paths, plan, &vec!["p".to_string()], &vec!["7".to_string()]);
    assert_eq!(sweep.next_scope(), Some(&Scope::Global));
    let (file, written) =
        sweep.take(Some(authors_from(r#"{"R":{"Old":{"x":1,"y":2}}}"#))).unwrap();
    assert_eq!(file, "/c/global.json");
    assert_eq!(lookup(&written, "R", "New", "y"), Some(&num(2)));
    assert_eq!(sweep.next_scope(), Some(&Scope::Profile("p".into())));
    // A scope that is gone is passed over.
    assert!(sweep.take(None).is_none());
    assert_eq!(sweep.next_scope(), Some(&Scope::Game("7".into())));
    assert!(sweep.take(Some(authors_from(r#"{"A":{"B":{"c":1}}}"#))).is_none());
    assert_eq!(sweep.next_scope(), None);
    assert_eq!(sweep.reports, vec![("global".to_string(), vec!["x".to_string()])]);
}

/// The variables of a module with their numbers, in order.
fn stored_in(a: &AuthorsMap, module: (&str, &str)) -> String {
    let vars = a.get(module.0).unwrap().get(module.1).unwrap();
    let all: Vec<String> = (0..vars.len())
        .map(|i| match vars.value_at(i) {
            Json::Number(n) => format!("{}={}", vars.key_at(i), n.text),
            other => format!("{}={other:?}", vars.key_at(i)),
        })
        .collect();
    all.join(" ")
}

#[test]
fn remapping_in_place_twice_is_remapping_once() {
    let mut rename: OrderedMap<String> = OrderedMap::new();
    rename.insert("x".into(), "y".into());
    rename.insert("y".into(), "z".into());
    let module = ("A", "M");
    let mut a = authors_from(r#"{"A":{"M":{"x":1}}}"#);
    assert!(remap_module_config(&mut a, module, module, &rename, &vec![]).is_empty());
    assert_eq!(stored_in(&a, module), "x=1 y=1");
    let dropped = remap_module_config(&mut a, module, module, &rename, &vec![]);
    assert_eq!(stored_in(&a, module), "x=1 y=1");
    assert_eq!(sorted(dropped), vec!["x".to_string(), "y".to_string()]);

    // A value of its own goes on.
    let mut a = authors_from(r#"{"A":{"M":{"x":1,"y":2}}}"#);
    let dropped = remap_module_config(&mut a, module, module, &rename, &vec![]);
    assert_eq!(dropped, vec!["x".to_string()]);
    assert_eq!(stored_in(&a, module), "x=1 y=2 z=2");
    remap_module_config(&mut a, module, module, &rename, &vec![]);
    assert_eq!(stored_in(&a, module), "x=1 y=2 z=2");
}
