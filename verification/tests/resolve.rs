use ritz::config::{GameConfig, Preset};
use ritz::ordered::OrderedMap;
use ritz::resolve::{resolve, resolve_one, ExtResolution, Provenance, Resolution};
use ritz::schema::{Extension, ExtensionMeta, FieldType, OptionsSpec, UiField};
use ritz::value::Json;

fn text(s: &str) -> Json {
    Json::String(s.to_string())
}

fn field(field_type: FieldType, variable: &str, default: Option<Json>) -> UiField {
    UiField {
        name: None,
        description: None,
        field_type,
        variable: variable.into(),
        default,
        options: None,
        display_options: None,
        requirement: None,
    }
}

fn module(name: &str, section: &str, fields: Vec<UiField>) -> Extension {
    let mut ui = OrderedMap::new();
    ui.insert(section.to_string(), fields);
    Extension {
        meta: ExtensionMeta {
            name: name.into(),
            author: "Ritze".into(),
            version: "1.0".into(),
            description: None,
            forked_from: None,
        },
        app_ids: None,
        backend: None,
        requires_desktop: None,
        ui,
        env_vars: Vec::new(),
        wrappers: Vec::new(),
        game_env_vars: Vec::new(),
        game_launch_args: Vec::new(),
        hooks: None,
        script_builders: Vec::new(),
    }
}

fn ext() -> Extension {
    let mut backend = field(FieldType::Selection, "backend", None);
    backend.options = Some(OptionsSpec::List(vec!["auto".into(), "sdl".into()]));
    module(
        "amd",
        "RADV",
        vec![
            field(FieldType::Toggle, "radv_enabled", Some(Json::Bool(false))),
            field(FieldType::Toggle, "radv_aco", Some(Json::Bool(true))),
            backend,
            field(FieldType::Toggle, "global:hdr", Some(Json::Bool(false))),
        ],
    )
}

fn amd(res: &Resolution) -> &ExtResolution {
    res.exts.get("Ritze::amd::1.0").unwrap()
}

fn preset(values: &[(&str, Json)]) -> Preset {
    let mut p = Preset { name: "FPS".into(), ..Preset::default() };
    for (var, value) in values {
        p.set_value("Ritze", "amd", var, value.clone());
    }
    p
}

#[test]
fn default_layer() {
    let exts = [ext()];
    let res = resolve(&exts, None, None, None);
    let e = amd(&res);
    assert_eq!(e.fields.get("radv_enabled").unwrap().provenance, Provenance::Default);
    assert!(!e.fields.get("radv_enabled").unwrap().var.truthy);
    assert!(e.fields.get("radv_aco").unwrap().var.truthy); // default true
    // selection with no default is disabled/falsy
    assert!(!e.fields.get("backend").unwrap().var.truthy);
}

#[test]
fn multi_string_joins_entries_by_newline() {
    let exts = [module("scripts", "S", vec![field(FieldType::MultiString, "cmds", None)])];
    let mut game = GameConfig::new("730", "cs2");
    game.set_value(
        "Ritze",
        "scripts",
        "cmds",
        Json::Array(vec![text("echo one"), text("echo two")]),
    );

    let res = resolve(&exts, Some(&game), None, None);
    let v = &res.exts.get("Ritze::scripts::1.0").unwrap().fields.get("cmds").unwrap().var;
    assert!(v.truthy);
    assert_eq!(v.value, "echo one\necho two");

    // Empty list → falsy, empty value (so RITZ_VAR_* is "" and hooks skip).
    let mut empty = GameConfig::new("730", "cs2");
    empty.set_value("Ritze", "scripts", "cmds", Json::Array(vec![]));
    let res2 = resolve(&exts, Some(&empty), None, None);
    let v2 = &res2.exts.get("Ritze::scripts::1.0").unwrap().fields.get("cmds").unwrap().var;
    assert!(!v2.truthy);
    assert_eq!(v2.value, "");
}

#[test]
fn preset_then_game_override() {
    let exts = [ext()];
    let preset = preset(&[("radv_enabled", Json::Bool(true)), ("backend", text("sdl"))]);
    let mut game = GameConfig::new("730", "cs2");
    game.set_value("Ritze", "amd", "backend", text("auto"));

    let res = resolve(&exts, Some(&game), Some(&preset), None);
    let e = amd(&res);

    // radv_enabled inherited from preset
    assert_eq!(e.fields.get("radv_enabled").unwrap().provenance, Provenance::Preset);
    assert!(e.fields.get("radv_enabled").unwrap().var.truthy);
    // backend overridden by game
    assert_eq!(e.fields.get("backend").unwrap().provenance, Provenance::Game);
    assert_eq!(e.fields.get("backend").unwrap().var.value, "auto");
}

#[test]
fn null_disables_inherited() {
    let exts = [ext()];
    let preset = preset(&[("backend", text("sdl"))]);
    let mut game = GameConfig::new("730", "cs2");
    game.set_value("Ritze", "amd", "backend", Json::Null);

    let res = resolve(&exts, Some(&game), Some(&preset), None);
    let e = amd(&res);
    assert_eq!(e.fields.get("backend").unwrap().provenance, Provenance::Game);
    assert!(!e.fields.get("backend").unwrap().enabled);
    assert!(!e.fields.get("backend").unwrap().var.truthy);
}

#[test]
fn global_published_and_visible_in_var_store() {
    let exts = [ext()];
    let mut game = GameConfig::new("730", "cs2");
    game.set_value("Ritze", "amd", "global:hdr", Json::Bool(true));

    let res = resolve(&exts, Some(&game), None, None);
    assert!(res.global.contains_key("hdr"));

    let store = res.var_store("Ritze::amd::1.0");
    assert!(store.truthy("global:hdr"));
    // local does NOT contain the global var under its prefixed name
    assert!(!store.truthy("hdr"));
}

#[test]
fn a_global_is_seen_by_every_extension() {
    let exts = [ext(), module("other", "S", vec![field(FieldType::String, "x", None)])];
    let mut game = GameConfig::new("730", "cs2");
    game.set_value("Ritze", "amd", "global:hdr", Json::Bool(true));
    let res = resolve(&exts, Some(&game), None, None);
    assert!(res.var_store("Ritze::other::1.0").truthy("global:hdr"));
    assert!(res.var_store("unknown").truthy("global:hdr"));
    assert!(!res.var_store("unknown").truthy("radv_aco"));
}

#[test]
fn the_global_scope_lies_below_the_profile() {
    let global = preset(&[("backend", text("auto")), ("radv_enabled", Json::Bool(true))]);
    let profile = preset(&[("backend", text("sdl"))]);
    let exts = [ext()];
    let res = resolve(&exts, None, Some(&profile), Some(&global));
    let e = amd(&res);
    assert_eq!(e.fields.get("backend").unwrap().provenance, Provenance::Preset);
    assert_eq!(e.fields.get("backend").unwrap().var.value, "sdl");
    assert_eq!(e.fields.get("radv_enabled").unwrap().provenance, Provenance::Global);
    // Locals are the variables that are not global.
    assert!(e.local.contains_key("backend"));
    assert!(!e.local.contains_key("global:hdr"));
}

#[test]
fn one_field_at_a_time() {
    let f = field(FieldType::Integer, "n", Some(text("5")));
    let r = resolve_one(&f, "Ritze", "amd", None, None, None);
    assert_eq!(r.provenance, Provenance::Default);
    assert_eq!(r.raw, Some(text("5")));
    let game_layer = preset(&[("n", text("7"))]);
    let r = resolve_one(&f, "Ritze", "amd", None, Some(&game_layer), None);
    assert_eq!(r.provenance, Provenance::Preset);
    assert_eq!(r.var.value, "7");
    assert!(r.enabled);
}

#[test]
fn the_last_field_of_a_name_is_seen() {
    let twice = module(
        "amd",
        "S",
        vec![
            field(FieldType::String, "x", Some(text("first"))),
            field(FieldType::String, "y", Some(text("other"))),
            field(FieldType::String, "x", Some(text("second"))),
        ],
    );
    let again = module("amd", "S", vec![field(FieldType::String, "x", Some(text("third")))]);

    let res = resolve(&[twice.clone()], None, None, None);
    assert_eq!(amd(&res).fields.get("x").unwrap().var.value, "second");
    assert_eq!(res.var_store("Ritze::amd::1.0").value("x"), "second");
    assert_eq!(res.var_store("Ritze::amd::1.0").value("y"), "other");

    // Of two extensions with one id the later one is seen.
    let res = resolve(&[twice, again], None, None, None);
    assert_eq!(res.var_store("Ritze::amd::1.0").value("x"), "third");
    assert!(res.var_store("Ritze::amd::1.0").value("y").is_empty());
}

#[test]
fn the_last_publisher_of_a_global_wins() {
    let first = module("a", "S", vec![field(FieldType::String, "global:g", Some(text("1")))]);
    let second = module("b", "S", vec![field(FieldType::String, "global:g", Some(text("2")))]);
    let res = resolve(&[first, second], None, None, None);
    assert_eq!(res.var_store("Ritze::a::1.0").value("global:g"), "2");
    assert_eq!(res.global.len(), 1);
}
