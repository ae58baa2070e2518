use ritz::builder::{build, EnvAction, LaunchCommand};
use ritz::config::GameConfig;
use ritz::context::ResolvedGame;
use ritz::extension::LoadedExtension;
use ritz::hooks::{inject, plan_stage, script_for, script_input, split_tokens, var_env, Stage};
use ritz::ordered::OrderedMap;
use ritz::resolve::{ExtResolution, Provenance, Resolution, ResolvedField};
use ritz::schema::{Extension, ExtensionMeta, HookSpec, Hooks};
use ritz::variables::ResolvedVar;

fn toks(s: &[&str]) -> Vec<String> {
    s.iter().map(|x| x.to_string()).collect()
}

fn game(fields: &[(&str, bool, &str)]) -> ResolvedGame {
    let mut map = OrderedMap::new();
    for (name, truthy, value) in fields {
        map.insert(
            name.to_string(),
            ResolvedField {
                var: ResolvedVar::new(*truthy, value),
                provenance: Provenance::Default,
                enabled: *truthy,
                raw: None,
            },
        );
    }
    let mut exts = OrderedMap::new();
    exts.insert("R::m::1".to_string(), ExtResolution { local: OrderedMap::new(), fields: map });
    ResolvedGame {
        appid: "730".into(),
        specs: vec![],
        resolution: Resolution { global: OrderedMap::new(), exts },
        game_config: GameConfig::new("730", "g"),
        preset: None,
    }
}

fn hooks() -> Hooks {
    Hooks {
        pre_launch: Some(HookSpec::Simple("pre.sh".into())),
        post_spawn: None,
        on_game_ready: Some(HookSpec::Detailed { script: "/abs.sh".into(), background: true }),
        post_exit: None,
    }
}

fn loaded(hooks: Option<Hooks>) -> LoadedExtension {
    LoadedExtension {
        spec: Extension {
            meta: ExtensionMeta {
                name: "m".into(),
                author: "R".into(),
                version: "1".into(),
                description: None,
                forked_from: None,
            },
            app_ids: None,
            backend: None,
            requires_desktop: None,
            ui: OrderedMap::new(),
            env_vars: Vec::new(),
            wrappers: Vec::new(),
            game_env_vars: Vec::new(),
            game_launch_args: Vec::new(),
            hooks,
            script_builders: Vec::new(),
        },
        dir: "/e/m".into(),
        manifest: "/e/m/m.json".into(),
        rel_dir: "m".into(),
        is_folder_ext: true,
    }
}

fn launch() -> LaunchCommand {
    build(&[], &toks(&["/g"])).unwrap()
}

#[test]
fn each_stage_has_its_hook() {
    let h = hooks();
    assert_eq!(script_for(&h, Stage::PreLaunch).unwrap().script(), "pre.sh");
    assert!(script_for(&h, Stage::PostSpawn).is_none());
    assert!(script_for(&h, Stage::OnGameReady).unwrap().background());
    assert!(script_for(&h, Stage::PostExit).is_none());
}

#[test]
fn variables_are_exported_to_scripts() {
    let g = game(&[("a", true, "x"), ("b", true, "true"), ("c", false, "")]);
    let env = var_env(&g, "R::m::1");
    assert_eq!(env.get("RITZ_APPID").map(|s| s.as_str()), Some("730"));
    assert_eq!(env.get("RITZ_VAR_a").map(|s| s.as_str()), Some("x"));
    assert_eq!(env.get("RITZ_VAR_b").map(|s| s.as_str()), Some("true"));
    // An empty value is exported as it is, so that scripts can skip it.
    assert_eq!(env.get("RITZ_VAR_c").map(|s| s.as_str()), Some(""));
    assert_eq!(var_env(&g, "other").len(), 1);
}

#[test]
fn a_stage_runs_the_hooks_that_have_one() {
    let g = game(&[("a", true, "x")]);
    let with = loaded(Some(hooks()));
    let without = loaded(None);
    let exts = vec![&without, &with];
    let runs = plan_stage(Stage::PreLaunch, &g, &exts);
    assert_eq!(runs.len(), 1);
    assert_eq!(runs[0].path, "/e/m/pre.sh");
    assert_eq!(runs[0].dir, "/e/m");
    assert_eq!(runs[0].script, "pre.sh");
    assert_eq!(runs[0].name, "m");
    assert!(!runs[0].background);
    assert_eq!(runs[0].env.get("RITZ_VAR_a").map(|s| s.as_str()), Some("x"));
    let ready = plan_stage(Stage::OnGameReady, &g, &exts);
    assert_eq!(ready[0].path, "/abs.sh");
    assert!(ready[0].background);
    assert!(plan_stage(Stage::PostExit, &g, &exts).is_empty());
}

#[test]
fn builders_get_the_variables_as_json() {
    let g = game(&[("z", true, "q\"\\\n\u{1}ü"), ("a", true, "1"), ("empty", false, "")]);
    let input = script_input(&g, "R::m::1");
    let mut obj = serde_json::Map::new();
    for (k, v) in [("z", "q\"\\\n\u{1}ü"), ("a", "1"), ("empty", "")] {
        obj.insert(k.to_string(), serde_json::Value::String(v.to_string()));
    }
    assert_eq!(input, serde_json::Value::Object(obj).to_string());
    assert_eq!(script_input(&g, "other"), "{}");
}

#[test]
fn environment_lines_are_injected() {
    let mut l = launch();
    assert!(inject(&mut l, "ENV_VARS", " A=1 \n\nnothing\nB=x=y\r\n"));
    assert_eq!(l.env_vars.get("A"), Some(&EnvAction::Assign("1".into())));
    assert_eq!(l.env_vars.get("B"), Some(&EnvAction::Assign("x=y".into())));
    assert_eq!(l.env_vars.len(), 2);
    assert!(inject(&mut l, "GAME_ENV_VARS", "C=3"));
    assert_eq!(l.game_env_vars.get("C"), Some(&EnvAction::Assign("3".into())));
}

#[test]
fn tokens_are_injected() {
    let mut l = launch();
    assert!(inject(&mut l, "GAME_LAUNCH_ARGS", "-a 'b c'\n\n -d"));
    assert_eq!(l.game_args, toks(&["-a", "b c", "-d"]));
    assert!(inject(&mut l, "WRAPPERS", "gamemoderun"));
    assert_eq!(l.wrappers, toks(&["gamemoderun"]));
    assert!(!inject(&mut l, "OTHER", "x"));
    assert_eq!(l.game_command, toks(&["/g"]));
    assert_eq!(split_tokens("  "), toks(&[]));
    assert_eq!(split_tokens(" it's "), toks(&["it's"]));
}
