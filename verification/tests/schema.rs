use ritz::ordered::OrderedMap;
use ritz::schema::{
    apply_var_renames, rewrite_identifiers, rewrite_template, EnvBuilderEntry, EnvOp, EnvVarSpec,
    Extension, ExtensionMeta, FieldType, HookSpec, Hooks, UiField,
};

fn toggle(variable: &str) -> UiField {
    UiField {
        name: None,
        description: None,
        field_type: FieldType::Toggle,
        variable: variable.into(),
        default: None,
        options: None,
        display_options: None,
        requirement: None,
    }
}

fn ext() -> Extension {
    Extension {
        meta: ExtensionMeta {
            name: "M".into(),
            author: "Ritze".into(),
            version: "1.0".into(),
            description: None,
            forked_from: None,
        },
        app_ids: None,
        backend: None,
        requires_desktop: None,
        ui: OrderedMap::new(),
        env_vars: Vec::new(),
        wrappers: Vec::new(),
        game_env_vars: Vec::new(),
        game_launch_args: Vec::new(),
        hooks: None,
        script_builders: Vec::new(),
    }
}

fn renames(pairs: &[(&str, &str)]) -> OrderedMap<String> {
    let mut m = OrderedMap::new();
    for (a, b) in pairs {
        m.insert(a.to_string(), b.to_string());
    }
    m
}

#[test]
fn hookspec_accepts_string_and_object_forms() {
    let hooks = Hooks {
        pre_launch: Some(HookSpec::Simple("pre.sh".into())),
        post_spawn: Some(HookSpec::Detailed { script: "post.sh".into(), background: true }),
        on_game_ready: None,
        post_exit: Some(HookSpec::Detailed { script: "exit.sh".into(), background: false }),
    };

    let pre = hooks.pre_launch.unwrap();
    assert_eq!(pre.script(), "pre.sh");
    assert!(!pre.background());

    let post = hooks.post_spawn.unwrap();
    assert_eq!(post.script(), "post.sh");
    assert!(post.background());

    // Object form without Background defaults to blocking.
    let exit = hooks.post_exit.unwrap();
    assert_eq!(exit.script(), "exit.sh");
    assert!(!exit.background());
}

#[test]
fn apply_var_renames_rewrites_exact_references_only() {
    // A module referencing `old` in a builder Value token, a Requires, and a
    // field Variable — plus a similarly-named `old_thing` that must survive.
    let mut ext = ext();
    let mut dep = toggle("dep");
    dep.field_type = FieldType::String;
    dep.requirement = Some("old AND old_thing".into());
    ext.ui.insert("S".into(), vec![toggle("old"), toggle("old_thing"), dep]);
    ext.env_vars = vec![EnvVarSpec {
        name: "MY_{old}".into(),
        requirement: None,
        builder: vec![EnvBuilderEntry {
            requirement: Some("old".into()),
            op: EnvOp::Assign,
            value: Some("x={old} y={old_thing} z={{old}}".into()),
            separator: None,
        }],
    }];

    apply_var_renames(&mut ext, &renames(&[("old", "new")]));

    {
        let fields: Vec<&UiField> = ext.fields();
        // Exact field Variable renamed; the substring-sharing one untouched.
        assert_eq!(fields[0].variable, "new");
        assert_eq!(fields[1].variable, "old_thing");
        // Requires: exact identifier rewritten, substring left alone.
        assert_eq!(fields[2].requirement.as_deref(), Some("new AND old_thing"));
    }
    // Env-var name token + builder Value token rewritten; `{old_thing}` and
    // the `{{old}}` escape preserved; builder Requires rewritten.
    assert_eq!(ext.env_vars[0].name, "MY_{new}");
    assert_eq!(
        ext.env_vars[0].builder[0].value.as_deref(),
        Some("x={new} y={old_thing} z={{old}}")
    );
    assert_eq!(ext.env_vars[0].builder[0].requirement.as_deref(), Some("new"));
}

#[test]
fn identifiers_are_rewritten_whole() {
    let m = renames(&[("a", "b"), ("global:x", "global:y")]);
    assert_eq!(rewrite_identifiers("a AND !aa OR global:x", &m), "b AND !aa OR global:y");
    assert_eq!(rewrite_identifiers("  a", &m), "  b");
    // The operators are no variables.
    let m2 = renames(&[("AND", "x"), ("OR", "y"), ("NOT", "z"), ("a", "b")]);
    assert_eq!(rewrite_identifiers("a AND NOT c OR ANDY", &m2), "b AND NOT c OR ANDY");
    assert_eq!(rewrite_identifiers("", &m), "");
    assert_eq!(rewrite_identifiers("a", &renames(&[])), "a");
}

#[test]
fn templates_keep_what_is_no_token() {
    let m = renames(&[("a", "b")]);
    for (from, to) in [
        ("{a}", "{b}"),
        ("{{a}}", "{{a}}"),
        ("{a", "{a"),
        ("a}", "a}"),
        ("{ab}", "{ab}"),
        ("", ""),
    ] {
        let mut s = from.to_string();
        rewrite_template(&mut s, &m);
        assert_eq!(s, to);
    }
}

#[test]
fn ids_and_restrictions() {
    let mut e = ext();
    assert_eq!(e.id(), "Ritze::M::1.0");
    assert!(e.applies_to("730"));
    e.app_ids = Some(vec!["730".into(), "440".into()]);
    assert!(e.applies_to("440"));
    assert!(!e.applies_to("1"));
    assert!(toggle("global:x").is_global());
    assert!(!toggle("x").is_global());
    e.ui.insert("A".into(), vec![toggle("1"), toggle("2")]);
    e.ui.insert("B".into(), vec![toggle("3")]);
    let vars: Vec<&str> = e.fields().iter().map(|f| f.variable.as_str()).collect();
    assert_eq!(vars, vec!["1", "2", "3"]);
}
