use ritz::builder::{
    apply_list_env, build, build_args, build_env_block, build_wrappers, shq, split_command,
    tokens_or_words, EnvAction, EnvScope, ExtInput, LaunchCommand,
};
use ritz::error::RitzError;
use ritz::ordered::OrderedMap;
use ritz::schema::{
    ArgSpec, EnvBuilderEntry, EnvOp, EnvVarSpec, Extension, ExtensionMeta, FieldType, UiField,
    WrapperBuilderEntry, WrapperSpec,
};
use ritz::variables::{ResolvedVar, VarStore};

fn ext(name: &str) -> Extension {
    Extension {
        meta: ExtensionMeta {
            name: name.into(),
            author: "Ritze".into(),
            version: "1.0".into(),
            description: None,
            forked_from: None,
        },
        app_ids: None,
        backend: None,
        requires_desktop: None,
        ui: OrderedMap::new(),
        env_vars: Vec::new(),
        wrappers: Vec::new(),
        game_env_vars: Vec::new(),
        game_launch_args: Vec::new(),
        hooks: None,
        script_builders: Vec::new(),
    }
}

fn entry(requirement: &str, op: EnvOp, value: &str) -> EnvBuilderEntry {
    EnvBuilderEntry {
        requirement: Some(requirement.into()),
        op,
        value: Some(value.into()),
        separator: None,
    }
}

fn env(name: &str, requirement: &str, builder: Vec<EnvBuilderEntry>) -> EnvVarSpec {
    EnvVarSpec { name: name.into(), requirement: Some(requirement.into()), builder }
}

fn wrapper(syntax: &str, requirement: &str, priority: i64, options: &[(&str, &str)]) -> WrapperSpec {
    WrapperSpec {
        command_syntax: syntax.into(),
        requirement: Some(requirement.into()),
        priority,
        builder: options
            .iter()
            .map(|(r, v)| WrapperBuilderEntry {
                requirement: Some(r.to_string()),
                value: v.to_string(),
            })
            .collect(),
    }
}

fn list_backend(name: &str, backend: &str, section: &str, variable: &str) -> Extension {
    let mut e = ext(name);
    e.backend = Some(backend.into());
    e.ui.insert(
        section.into(),
        vec![UiField {
            name: None,
            description: None,
            field_type: FieldType::MultiString,
            variable: variable.into(),
            default: None,
            options: None,
            display_options: None,
            requirement: None,
        }],
    );
    e
}

fn toks(s: &[&str]) -> Vec<String> {
    s.iter().map(|x| x.to_string()).collect()
}

fn set(v: &str) -> EnvAction {
    EnvAction::Assign(v.to_string())
}

#[test]
fn env_set_clear_append_ordering() {
    // RADV_PERFTEST: clear (set ""), then append aco, append gpl.
    let mut spec = ext("amd");
    spec.env_vars = vec![env(
        "RADV_PERFTEST",
        "radv_enabled",
        vec![
            entry("radv_clear", EnvOp::Assign, ""),
            entry("radv_aco", EnvOp::Append, "aco"),
            entry("radv_gpl", EnvOp::Append, "gpl"),
        ],
    )];
    let mut vars = VarStore::new();
    for v in ["radv_enabled", "radv_clear", "radv_aco", "radv_gpl"] {
        vars.insert_local(v, ResolvedVar::new(true, "true"));
    }
    let lc = build(&[ExtInput { spec: &spec, vars: &vars }], &[]).unwrap();
    assert_eq!(lc.env_vars.get("RADV_PERFTEST"), Some(&set("aco,gpl")));
}

#[test]
fn env_block_skipped_when_requires_false() {
    let mut spec = ext("amd");
    spec.env_vars = vec![env(
        "RADV_PERFTEST",
        "radv_enabled",
        vec![entry("radv_aco", EnvOp::Append, "aco")],
    )];
    let vars = VarStore::new(); // nothing truthy
    let lc = build(&[ExtInput { spec: &spec, vars: &vars }], &[]).unwrap();
    assert!(lc.env_vars.is_empty());
}

#[test]
fn wrapper_options_and_interpolation() {
    let mut spec = ext("gamescope");
    spec.wrappers = vec![wrapper(
        "gamescope {OPTIONS} --",
        "gs_enabled",
        100,
        &[("fullscreen", "--fullscreen"), ("backend", "--backend {backend}")],
    )];
    let mut vars = VarStore::new();
    vars.insert_local("gs_enabled", ResolvedVar::new(true, "true"));
    vars.insert_local("fullscreen", ResolvedVar::new(true, "true"));
    vars.insert_local("backend", ResolvedVar::new(true, "auto"));
    let lc = build(&[ExtInput { spec: &spec, vars: &vars }], &[]).unwrap();
    assert_eq!(lc.wrappers, toks(&["gamescope", "--fullscreen", "--backend", "auto", "--"]));
}

#[test]
fn wrapper_priority_ordering() {
    let mut outer = ext("gamescope");
    outer.wrappers = vec![wrapper("gamescope --", "", 100, &[])];
    let mut inner = ext("gamemode");
    inner.wrappers = vec![wrapper("gamemoderun", "", 50, &[])];
    let vars = VarStore::new();
    let inputs =
        [ExtInput { spec: &outer, vars: &vars }, ExtInput { spec: &inner, vars: &vars }];
    let lc = build(&inputs, &[]).unwrap();
    // priority 50 (gamemoderun) comes before priority 100 (gamescope)
    assert_eq!(lc.wrappers, toks(&["gamemoderun", "gamescope", "--"]));
}

#[test]
fn full_assembly_with_game_env_shim() {
    let mut spec = ext("cs2");
    spec.env_vars = vec![env("RADV_PERFTEST", "", vec![entry("", EnvOp::Append, "aco")])];
    spec.wrappers = vec![wrapper("gamescope {OPTIONS} --", "", 100, &[("", "-f")])];
    spec.game_env_vars = vec![env("MANGOHUD", "", vec![entry("", EnvOp::Assign, "1")])];
    spec.game_launch_args =
        vec![ArgSpec { requirement: Some("".into()), value: "-condebug".into() }];
    let vars = VarStore::new();
    let game = toks(&["/games/cs2"]);
    let lc = build(&[ExtInput { spec: &spec, vars: &vars }], &game).unwrap();
    assert_eq!(
        lc.text(),
        "RADV_PERFTEST=aco gamescope -f -- env MANGOHUD=1 /games/cs2 -condebug"
    );
}

#[test]
fn exec_plan_with_wrapper_uses_env_shim() {
    let mut spec = ext("x");
    spec.wrappers = vec![wrapper("gamescope {OPTIONS} --", "", 100, &[("", "-f")])];
    spec.game_env_vars = vec![env("MANGOHUD", "", vec![entry("", EnvOp::Assign, "1")])];
    spec.env_vars = vec![env("RADV_PERFTEST", "", vec![entry("", EnvOp::Assign, "aco")])];
    let vars = VarStore::new();
    let game = toks(&["/games/cs2", "-steam"]);
    let lc = build(&[ExtInput { spec: &spec, vars: &vars }], &game).unwrap();
    let plan = lc.exec_plan().unwrap();
    assert_eq!(plan.program, "gamescope");
    assert_eq!(plan.args, toks(&["-f", "--", "env", "MANGOHUD=1", "/games/cs2", "-steam"]));
    assert_eq!(plan.env.get("RADV_PERFTEST"), Some(&set("aco")));
}

#[test]
fn exec_plan_no_wrapper_merges_env() {
    let mut spec = ext("x");
    spec.game_env_vars = vec![env("MANGOHUD", "", vec![entry("", EnvOp::Assign, "1")])];
    let vars = VarStore::new();
    let game = toks(&["/steam-wrapper", "--", "/games/cs2"]);
    let lc = build(&[ExtInput { spec: &spec, vars: &vars }], &game).unwrap();
    let plan = lc.exec_plan().unwrap();
    assert_eq!(plan.program, "/steam-wrapper");
    assert_eq!(plan.args, toks(&["--", "/games/cs2"]));
    assert_eq!(plan.env.get("MANGOHUD"), Some(&set("1")));
}

#[test]
fn custom_backends_list_expansion() {
    // custom-env: list scalar (multi_string join) → N env vars, split on FIRST `=`.
    let env_spec = list_backend("Custom Env", "custom-env", "E", "env");
    let mut env_vars = VarStore::new();
    // A multi_string resolves to its entries joined by newlines.
    // Includes a no-`=` line, an empty-name line, and an empty line — all skipped.
    env_vars
        .insert_local("env", ResolvedVar::new(true, "FOO=bar\nBAZ=qux=1\nNOEQ\n=nokey\n"));
    let lc = build(&[ExtInput { spec: &env_spec, vars: &env_vars }], &[]).unwrap();
    assert_eq!(lc.env_vars.get("FOO"), Some(&set("bar")));
    // Split on the FIRST `=`: value keeps its remaining `=`.
    assert_eq!(lc.env_vars.get("BAZ"), Some(&set("qux=1")));
    assert_eq!(lc.env_vars.len(), 2, "no-eq/empty-name/empty lines skipped");
    // No env var name ever contains a newline.
    assert!((0..lc.env_vars.len()).all(|i| !lc.env_vars.key_at(i).contains('\n')));

    // custom-game-env: same expansion, into game_env_vars, var `game_env`.
    let genv_spec = list_backend("Custom Game Env", "custom-game-env", "E", "game_env");
    let mut genv = VarStore::new();
    genv.insert_local("game_env", ResolvedVar::new(true, "MANGOHUD=1"));
    let lc = build(&[ExtInput { spec: &genv_spec, vars: &genv }], &[]).unwrap();
    assert_eq!(lc.game_env_vars.get("MANGOHUD"), Some(&set("1")));
    assert!(lc.env_vars.is_empty());

    // custom-args: one arg per line, literal (no shlex) — spaces preserved.
    let args_spec = list_backend("Game Launch Args", "custom-args", "A", "args");
    let mut args = VarStore::new();
    args.insert_local("args", ResolvedVar::new(true, "-foo\n--bar baz"));
    let lc = build(&[ExtInput { spec: &args_spec, vars: &args }], &[]).unwrap();
    assert_eq!(lc.game_args, toks(&["-foo", "--bar baz"]));

    // Empty/unset list var → no-op.
    let empty = VarStore::new();
    let lc = build(&[ExtInput { spec: &env_spec, vars: &empty }], &[]).unwrap();
    assert!(lc.env_vars.is_empty());
}

#[test]
fn no_wrapper_merges_game_env() {
    let mut spec = ext("x");
    spec.game_env_vars = vec![env("MANGOHUD", "", vec![entry("", EnvOp::Assign, "1")])];
    let vars = VarStore::new();
    let game = toks(&["/games/cs2"]);
    let lc = build(&[ExtInput { spec: &spec, vars: &vars }], &game).unwrap();
    // no `env` shim when there is no wrapper
    assert_eq!(lc.text(), "MANGOHUD=1 /games/cs2");
}

#[test]
fn unset_and_separators() {
    let vars = VarStore::new();
    let mut spec = ext("x");
    let mut sep = entry("", EnvOp::Append, "b");
    sep.separator = Some(":".into());
    spec.env_vars = vec![
        env("A", "", vec![entry("", EnvOp::Append, "a"), sep]),
        env("B", "", vec![entry("", EnvOp::Assign, "x"), entry("", EnvOp::Unset, "")]),
        env("C", "", vec![entry("", EnvOp::Unset, ""), entry("", EnvOp::Append, "c")]),
    ];
    let inputs = [ExtInput { spec: &spec, vars: &vars }];
    let block = build_env_block(&inputs, EnvScope::Chain).unwrap();
    assert_eq!(block.get("A"), Some(&set("a:b")));
    assert_eq!(block.get("B"), Some(&EnvAction::Unset));
    assert_eq!(block.get("C"), Some(&set("c")));
    assert_eq!(block.key_at(0), "A");
    assert!(build_env_block(&inputs, EnvScope::Game).unwrap().is_empty());
    let lc = build(&inputs, &toks(&["/g"])).unwrap();
    assert_eq!(lc.text(), "env A=a:b -u B C=c /g");
}

#[test]
fn a_bad_condition_is_reported() {
    let vars = VarStore::new();
    let mut spec = ext("x");
    spec.env_vars = vec![env("A", "a b", vec![])];
    assert!(matches!(
        build(&[ExtInput { spec: &spec, vars: &vars }], &[]),
        Err(RitzError::Condition(_))
    ));
    let mut spec = ext("x");
    spec.wrappers = vec![wrapper("w", "a b", 0, &[])];
    assert!(build_wrappers(&[ExtInput { spec: &spec, vars: &vars }]).is_err());
    let mut spec = ext("x");
    spec.game_launch_args = vec![ArgSpec { requirement: Some("!".into()), value: "x".into() }];
    assert!(build_args(&[ExtInput { spec: &spec, vars: &vars }]).is_err());
}

#[test]
fn the_command_is_split_as_a_shell_would() {
    assert_eq!(split_command("a 'b c' \"d e\" f\\ g"), toks(&["a", "b c", "d e", "f g"]));
    // An open quote is split at blanks instead.
    assert_eq!(split_command("a 'b c"), toks(&["a", "'b", "c"]));
    assert_eq!(split_command(""), toks(&[]));
    assert_eq!(tokens_or_words(None, " x  y "), toks(&["x", "y"]));
    assert_eq!(tokens_or_words(Some(toks(&["p q"])), "ignored"), toks(&["p q"]));
}

#[test]
fn args_are_split_and_filled() {
    let mut vars = VarStore::new();
    vars.insert_local("res", ResolvedVar::new(true, "1280 720"));
    let mut spec = ext("x");
    spec.game_launch_args = vec![
        ArgSpec { requirement: None, value: "-w {res}".into() },
        ArgSpec { requirement: Some("missing".into()), value: "-never".into() },
        ArgSpec { requirement: None, value: "'{res}'".into() },
    ];
    let args = build_args(&[ExtInput { spec: &spec, vars: &vars }]).unwrap();
    assert_eq!(args, toks(&["-w", "1280", "720", "1280 720"]));
}

#[test]
fn quoting_is_undone_by_a_shell() {
    assert_eq!(shq("plain-1.0/x=y:z@%+,"), "plain-1.0/x=y:z@%+,");
    assert_eq!(shq(""), "''");
    assert_eq!(shq("a b"), "'a b'");
    assert_eq!(shq("it's"), "'it'\\''s'");
    for s in ["", "a b", "it's", "$HOME", "\"", "ünï", "a\nb", "plain"] {
        assert_eq!(shlex::split(&shq(s)).unwrap(), vec![s.to_string()]);
    }
}

#[test]
fn list_lines_replace_what_stands_there() {
    let mut env: OrderedMap<EnvAction> = OrderedMap::new();
    env.insert("A".into(), EnvAction::Unset);
    apply_list_env(&mut env, " A = 1 \r\nB=2\nB=3");
    // Nothing is trimmed: a name is what stands before the first `=`.
    assert_eq!(env.get("A"), Some(&EnvAction::Unset));
    assert_eq!(env.get(" A "), Some(&set(" 1 \r")));
    assert_eq!(env.get("B"), Some(&set("3")));
}

#[test]
fn nothing_to_run_is_no_plan() {
    let lc = build(&[], &[]).unwrap();
    assert!(lc.exec_plan().is_none());
    assert_eq!(lc.text(), "");
    let lc = build(&[], &toks(&["a b", "c"])).unwrap();
    assert_eq!(lc.game_command, toks(&["a b", "c"]));
    assert_eq!(lc.text(), "'a b' c");
    let plan = lc.exec_plan().unwrap();
    assert_eq!(plan.program, "a b");
    assert_eq!(plan.args, toks(&["c"]));
}

#[test]
fn wrappers_of_one_priority_stay_in_order() {
    let vars = VarStore::new();
    let mut a = ext("a");
    a.wrappers = vec![wrapper("second", "", 5, &[]), wrapper("first", "", -5, &[])];
    let mut b = ext("b");
    b.wrappers = vec![wrapper("third", "", 5, &[])];
    let inputs = [ExtInput { spec: &a, vars: &vars }, ExtInput { spec: &b, vars: &vars }];
    assert_eq!(build_wrappers(&inputs).unwrap(), toks(&["first", "second", "third"]));
}

#[test]
fn a_plan_without_wrappers_drops_what_the_game_unsets() {
    let lc = LaunchCommand {
        env_vars: {
            let mut m = OrderedMap::new();
            m.insert("A".to_string(), set("1"));
            m
        },
        wrappers: vec![],
        game_env_vars: {
            let mut m = OrderedMap::new();
            m.insert("A".to_string(), EnvAction::Unset);
            m
        },
        game_command: toks(&["g"]),
        game_args: toks(&["-x"]),
    };
    let plan = lc.exec_plan().unwrap();
    assert_eq!(plan.env.get("A"), Some(&EnvAction::Unset));
    assert_eq!(plan.args, toks(&["-x"]));
}

#[test]
fn what_is_shown_is_what_is_run() {
    let mut lc = LaunchCommand {
        env_vars: OrderedMap::new(),
        wrappers: toks(&["wrap it", "--"]),
        game_env_vars: OrderedMap::new(),
        game_command: toks(&["/my games/g"]),
        game_args: toks(&["-x"]),
    };
    lc.env_vars.insert("A".to_string(), set("a b"));
    assert_eq!(lc.display_tokens(), toks(&["A='a b'", "'wrap it'", "--", "'/my games/g'", "-x"]));
    let plan = lc.exec_plan().unwrap();
    assert_eq!(plan.program, "wrap it");
    assert_eq!(plan.args, toks(&["--", "/my games/g", "-x"]));

    // The variables of the game alone are set behind the wrappers.
    lc.game_env_vars.insert("B".to_string(), set("c d"));
    assert_eq!(
        lc.display_tokens(),
        toks(&["A='a b'", "'wrap it'", "--", "env", "B='c d'", "'/my games/g'", "-x"])
    );
    let plan = lc.exec_plan().unwrap();
    assert_eq!(plan.args, toks(&["--", "env", "B=c d", "/my games/g", "-x"]));
}

#[test]
fn the_shown_line_splits_into_the_words_that_are_run() {
    let mut lc = LaunchCommand {
        env_vars: OrderedMap::new(),
        wrappers: toks(&["wrap it", "--"]),
        game_env_vars: OrderedMap::new(),
        game_command: toks(&["/my games/g's"]),
        game_args: toks(&["", "#x", "a\nb", "\"q\""]),
    };
    lc.env_vars.insert("A".to_string(), set("a b"));
    lc.env_vars.insert("C".to_string(), EnvAction::Unset);
    lc.game_env_vars.insert("B".to_string(), set("$c"));
    let mut run = toks(&["env", "A=a b", "-u", "C"]);
    let plan = lc.exec_plan().unwrap();
    run.push(plan.program);
    run.extend(plan.args);
    assert_eq!(shlex::split(&lc.text()), Some(run));
}
