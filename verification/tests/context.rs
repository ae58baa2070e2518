use ritz::config::{GameConfig, GeneralConfig, Preset};
use ritz::context::{
    appid_of, assemble_launch, desktop_matches, effective_preset, extension_dirs,
    game_config_for, list_games, merge_chain, merge_modules, load_extensions, AppContext,
    ChainWalk, ResolvedGame, WalkStep,
};
use ritz::extension::LoadedExtension;
use ritz::ordered::OrderedMap;
use ritz::paths::Paths;
use ritz::resolve::{resolve, Provenance};
use ritz::schema::{ArgSpec, Extension, ExtensionMeta, FieldType, UiField};
use ritz::steam::SteamCommand;
use ritz::value::Json;

fn text(s: &str) -> Json {
    Json::String(s.to_string())
}

fn toks(s: &[&str]) -> Vec<String> {
    s.iter().map(|x| x.to_string()).collect()
}

fn module(name: &str) -> Extension {
    let mut ui = OrderedMap::new();
    ui.insert(
        "S".to_string(),
        vec![UiField {
            name: None,
            description: None,
            field_type: FieldType::String,
            variable: "v".into(),
            default: None,
            options: None,
            display_options: None,
            requirement: None,
        }],
    );
    Extension {
        meta: ExtensionMeta {
            name: name.into(),
            author: "R".into(),
            version: "1".into(),
            description: None,
            forked_from: None,
        },
        app_ids: None,
        backend: None,
        requires_desktop: None,
        ui,
        env_vars: Vec::new(),
        wrappers: Vec::new(),
        game_env_vars: Vec::new(),
        game_launch_args: vec![ArgSpec { requirement: Some("v".into()), value: "-{v}".into() }],
        hooks: None,
        script_builders: Vec::new(),
    }
}

fn loaded(spec: Extension) -> LoadedExtension {
    LoadedExtension {
        spec,
        dir: "/e".into(),
        manifest: "/e/m.json".into(),
        rel_dir: "".into(),
        is_folder_ext: false,
    }
}

fn preset(name: &str, parent: Option<&str>, values: &[(&str, &str)]) -> Preset {
    let mut p = Preset {
        name: name.into(),
        parent: parent.map(|s| s.to_string()),
        ..Preset::default()
    };
    for (ext, value) in values {
        p.set_value("R", ext, "v", text(value));
    }
    p
}

fn context(exts: Vec<Extension>) -> AppContext {
    AppContext {
        paths: Paths { base: "/c".into() },
        general: GeneralConfig::default(),
        extensions: exts.into_iter().map(loaded).collect(),
    }
}

#[test]
fn desktops_are_compared_without_case() {
    assert!(desktop_matches(Some("KDE"), "kde"));
    assert!(desktop_matches(Some("GNOME:Hyprland"), "hyprland"));
    assert!(!desktop_matches(Some("GNOME:Hyprland"), "hypr"));
    assert!(!desktop_matches(None, "kde"));
}

#[test]
fn extensions_of_other_desktops_are_dropped() {
    let mut b = module("b");
    b.requires_desktop = Some("Hyprland".into());
    let all = vec![loaded(module("c")), loaded(b), loaded(module("a"))];
    let names = |v: &Vec<LoadedExtension>| {
        v.iter().map(|e| e.spec.meta.name.clone()).collect::<Vec<_>>()
    };
    assert_eq!(names(&load_extensions(&all, Some("KDE"))), toks(&["a", "c"]));
    assert_eq!(names(&load_extensions(&all, Some("HYPRLAND"))), toks(&["a", "b", "c"]));
    assert_eq!(names(&load_extensions(&all, None)), toks(&["a", "c"]));
}

#[test]
fn extensions_are_read_from_one_directory() {
    let paths = Paths { base: "/c".into() };
    assert_eq!(extension_dirs(None, &paths), toks(&["/c/extensions"]));
    assert_eq!(extension_dirs(Some("/x".into()), &paths), toks(&["/x"]));
}

#[test]
fn a_chain_is_walked_to_its_end() {
    let mut walk = ChainWalk::from("a");
    assert_eq!(walk.step(), WalkStep::Load("a".into()));
    walk.go_on(Some("b".into()));
    assert_eq!(walk.step(), WalkStep::Load("b".into()));
    walk.go_on(None);
    assert_eq!(walk.step(), WalkStep::Done);
}

#[test]
fn a_chain_that_comes_back_is_a_cycle() {
    let mut walk = ChainWalk::from("a");
    assert_eq!(walk.step(), WalkStep::Load("a".into()));
    walk.go_on(Some("b".into()));
    assert_eq!(walk.step(), WalkStep::Load("b".into()));
    walk.go_on(Some("a".into()));
    assert_eq!(walk.step(), WalkStep::Cycle);
    // A profile cannot become its own parent.
    assert_eq!(ChainWalk::below("a", "a").step(), WalkStep::Cycle);
    let mut walk = ChainWalk::below("a", "b");
    assert_eq!(walk.step(), WalkStep::Load("b".into()));
    walk.go_on(Some("a".into()));
    assert_eq!(walk.step(), WalkStep::Cycle);
}

#[test]
fn nearer_parents_win() {
    let chain = vec![
        preset("parent", Some("root"), &[("x", "parent")]),
        preset("root", None, &[("x", "root"), ("y", "root")]),
    ];
    let merged = merge_chain(&chain);
    assert_eq!(merged.get_value("R", "x", "v"), Some(&text("parent")));
    assert_eq!(merged.get_value("R", "y", "v"), Some(&text("root")));
    assert_eq!(merged.name, "");

    let own = preset("p", Some("parent"), &[("y", "own")]);
    let effective = effective_preset(&own, &chain);
    assert_eq!(effective.get_value("R", "x", "v"), Some(&text("parent")));
    assert_eq!(effective.get_value("R", "y", "v"), Some(&text("own")));

    let alone = preset("p", None, &[("y", "own")]);
    assert_eq!(effective_preset(&alone, &vec![]).name, "p");
}

#[test]
fn merging_keeps_what_the_overlay_does_not_hold() {
    let mut base = preset("", None, &[("x", "1"), ("y", "1")]).modules;
    merge_modules(&mut base, &preset("", None, &[("y", "2"), ("z", "2")]).modules);
    let get = |ext: &str| base.get("R").unwrap().get(ext).unwrap().get("v").cloned();
    assert_eq!(get("x"), Some(text("1")));
    assert_eq!(get("y"), Some(text("2")));
    assert_eq!(get("z"), Some(text("2")));
}

#[test]
fn games_without_a_config_are_made_up() {
    let steam = SteamCommand::parse(&toks(&["/s/steamapps/common/Game/x"]), Some("7".into()));
    let g = game_config_for(None, &steam);
    assert_eq!((g.game.appid.as_str(), g.game.name.as_str()), ("7", "Game"));
    let saved = game_config_for(Some(GameConfig::new("7", "Saved")), &steam);
    assert_eq!(saved.game.name, "Saved");
    let nameless = SteamCommand::parse(&toks(&["x"]), None);
    assert_eq!(appid_of(&nameless), "unknown");
    let g = game_config_for(None, &nameless);
    assert_eq!((g.game.appid.as_str(), g.game.name.as_str()), ("unknown", "unknown"));
}

#[test]
fn a_game_is_resolved_through_its_profile() {
    let mut only = module("only");
    only.app_ids = Some(toks(&["1"]));
    let ctx = context(vec![module("m"), only]);
    assert_eq!(ctx.applicable("7").len(), 1);
    assert_eq!(ctx.specs_for("1").len(), 2);
    let chain = vec![preset("parent", None, &[("m", "from-parent")])];
    let profile = preset("p", Some("parent"), &[]);
    let game = ctx.resolve_with(
        GameConfig::new("7", "g"),
        "7",
        Some(profile),
        &chain,
        &Preset::default(),
    );
    assert_eq!(game.value("R::m::1", "v"), Some("from-parent"));
    assert!(game.truthy("R::m::1", "v"));
    assert_eq!(game.field("R::m::1", "v").unwrap().provenance, Provenance::Preset);
    assert_eq!(game.value("R::none::1", "v"), None);
    assert!(!game.truthy("R::m::1", "w"));
    let steam = SteamCommand::parse(&toks(&["/g"]), Some("7".into()));
    let launch = game.build_launch(&steam).unwrap();
    assert_eq!(launch.text(), "/g -from-parent");
}

#[test]
fn the_profile_of_a_game() {
    let mut ctx = context(vec![]);
    let mut game = GameConfig::new("7", "g");
    assert_eq!(ctx.preset_name_for(&game), None);
    ctx.general.default_preset = Some("default".into());
    assert_eq!(ctx.preset_name_for(&game).as_deref(), Some("default"));
    game.config.modules.preset = Some("own".into());
    assert_eq!(ctx.preset_name_for(&game).as_deref(), Some("own"));
}

#[test]
fn the_launch_is_assembled_from_the_resolution() {
    let specs = [module("m")];
    let mut game = GameConfig::new("7", "g");
    game.set_value("R", "m", "v", text("x"));
    let resolution = resolve(&specs, Some(&game), None, None);
    let launch = assemble_launch(&specs, &resolution, &toks(&["/g"])).unwrap();
    assert_eq!(launch.text(), "/g -x");
    let resolved = ResolvedGame {
        appid: "7".into(),
        specs: vec![module("m")],
        resolution,
        game_config: game,
        preset: None,
    };
    let steam = SteamCommand::parse(&toks(&["/h"]), None);
    assert_eq!(resolved.build_launch(&steam).unwrap().text(), "/h -x");
}

#[test]
fn saved_games_are_listed_in_order() {
    let games = vec![
        GameConfig::new("9", "z"),
        GameConfig::new("10", "a"),
        GameConfig::new("9", "b"),
    ];
    let pair = |a: &str, b: &str| (a.to_string(), b.to_string());
    assert_eq!(list_games(&games), vec![pair("10", "a"), pair("9", "b"), pair("9", "z")]);
}
