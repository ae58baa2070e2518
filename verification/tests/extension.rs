use ritz::error::RitzError;
use ritz::extension::{
    accept_manifest, check_requires, load_all, note_manifest, validate,
    ExtensionLoadError, LoadedExtension,
};
use ritz::ordered::OrderedMap;
use ritz::schema::{
    ArgSpec, EnvBuilderEntry, EnvOp, EnvVarSpec, Extension, ExtensionMeta, FieldType, UiField,
    WrapperBuilderEntry, WrapperSpec,
};

fn named(author: &str, name: &str, version: &str) -> Extension {
    Extension {
        meta: ExtensionMeta {
            name: name.into(),
            author: author.into(),
            version: version.into(),
            description: None,
            forked_from: None,
        },
        app_ids: None,
        backend: None,
        requires_desktop: None,
        ui: OrderedMap::new(),
        env_vars: Vec::new(),
        wrappers: Vec::new(),
        game_env_vars: Vec::new(),
        game_launch_args: Vec::new(),
        hooks: None,
        script_builders: Vec::new(),
    }
}

fn ext() -> Extension {
    named("Ritze", "x", "1.0")
}

fn field(field_type: FieldType, variable: &str, requirement: Option<&str>) -> UiField {
    UiField {
        name: None,
        description: None,
        field_type,
        variable: variable.into(),
        default: None,
        options: None,
        display_options: None,
        requirement: requirement.map(|s| s.to_string()),
    }
}

fn toggle(variable: &str) -> UiField {
    field(FieldType::Toggle, variable, None)
}

fn reason(e: &Extension) -> String {
    match validate(e) {
        Err(RitzError::InvalidExtension { id, reason }) => {
            assert_eq!(id, e.id());
            reason
        }
        Err(_) => panic!("another error"),
        Ok(()) => panic!("the extension is valid"),
    }
}

#[test]
fn validate_rejects_global_in_ui_requires() {
    let mut ext = ext();
    ext.ui.insert("S".into(), vec![field(FieldType::Toggle, "a", Some("global:b"))]);
    assert!(validate(&ext).is_err());
}

#[test]
fn validate_allows_global_in_builder_requires() {
    let mut ext = ext();
    ext.env_vars = vec![EnvVarSpec {
        name: "FOO".into(),
        requirement: Some("global:b".into()),
        builder: vec![EnvBuilderEntry {
            requirement: Some("".into()),
            op: EnvOp::Assign,
            value: Some("1".into()),
            separator: None,
        }],
    }];
    assert!(validate(&ext).is_ok());
}

fn load(path: &str, spec: Extension) -> ritz::error::Result<LoadedExtension> {
    accept_manifest(spec, "/e".into(), path.into(), "".into(), None, None)
}

#[test]
fn discover_skips_and_warns_on_a_bad_file() {
    let mut exts = Vec::new();
    let mut errors = Vec::new();
    // One valid manifest.
    let good = load("/e/good.json", named("Ritze", "Good", "1.0"));
    note_manifest("/e/good.json", good, &mut exts, &mut errors);
    // One deliberately-broken manifest (malformed JSON).
    let bad = Err(RitzError::Json {
        path: "/e/bad.json".into(),
        source: serde_json::from_str::<serde_json::Value>("{ this is not json")
            .unwrap_err()
            .to_string(),
    });
    note_manifest("/e/bad.json", bad, &mut exts, &mut errors);

    assert_eq!(exts.len(), 1, "only the valid manifest should load");
    assert_eq!(exts[0].spec.meta.name, "Good");
    assert_eq!(errors.len(), 1, "the broken manifest should be reported");
    assert!(matches!(errors[0], ExtensionLoadError::Parse { .. }));
}

#[test]
fn validate_rejects_duplicate_section_name() {
    // Distinct exact JSON keys that normalize to the same section name
    // (case/whitespace) — the near-duplicates that survive parsing.
    let mut ext = ext();
    ext.ui.insert("Audio".into(), vec![toggle("a")]);
    ext.ui.insert("audio ".into(), vec![toggle("b")]);
    assert!(validate(&ext).is_err());
}

#[test]
fn validate_rejects_duplicate_variable() {
    let mut ext = ext();
    ext.ui.insert("S1".into(), vec![toggle("dup")]);
    ext.ui.insert("S2".into(), vec![field(FieldType::Integer, "dup", None)]);
    assert!(validate(&ext).is_err());
}

#[test]
fn validate_accepts_clean_manifest() {
    let mut ext = ext();
    ext.ui.insert("Audio".into(), vec![toggle("a")]);
    ext.ui.insert("Video".into(), vec![toggle("b"), field(FieldType::Integer, "c", None)]);
    assert!(validate(&ext).is_ok());
}

#[test]
fn load_all_detects_version_blind_duplicates() {
    // Same Author+Name, differing Version → distinct ids but one config key.
    let found = vec![
        load("/e/a.json", named("Ritze", "Dup", "1.0")).unwrap(),
        load("/e/b.json", named("Ritze", "Dup", "2.0")).unwrap(),
    ];
    let (exts, errors) = load_all(&found, &Vec::new());
    assert_eq!(exts.len(), 2, "both distinct-id modules load");
    assert!(
        errors.iter().any(|e| matches!(
            e,
            ExtensionLoadError::Dup { author, name, paths }
                if author == "Ritze" && name == "Dup" && paths.len() == 2
        )),
        "expected a Dup error, got: {errors:?}"
    );
}

#[test]
fn sections_are_compared_in_lower_case_and_trimmed() {
    let mut e = ext();
    e.ui.insert("ÄÖ".into(), vec![]);
    e.ui.insert(" äö".into(), vec![]);
    let said = reason(&e);
    assert!(said.contains("äö"), "{said}");
    // The lower case is that of Unicode, not of ASCII alone.
    let mut e = ext();
    e.ui.insert("ß".into(), vec![]);
    e.ui.insert("SS".into(), vec![]);
    assert!(validate(&e).is_ok());
}

#[test]
fn every_block_is_checked() {
    let entry = |r: &str| EnvBuilderEntry {
        requirement: Some(r.into()),
        op: EnvOp::Unset,
        value: None,
        separator: None,
    };
    let var = |r: &str, b: Vec<EnvBuilderEntry>| EnvVarSpec {
        name: "A".into(),
        requirement: Some(r.into()),
        builder: b,
    };
    let wrap = |r: &str, o: &str| WrapperSpec {
        command_syntax: "w".into(),
        requirement: Some(r.into()),
        priority: 0,
        builder: vec![WrapperBuilderEntry { requirement: Some(o.into()), value: "v".into() }],
    };
    let mut e = ext();
    e.env_vars = vec![var("a b", vec![])];
    assert!(validate(&e).is_err());
    let mut e = ext();
    e.game_env_vars = vec![var("", vec![entry("!")])];
    assert!(validate(&e).is_err());
    let mut e = ext();
    e.wrappers = vec![wrap("AND", "")];
    assert!(validate(&e).is_err());
    let mut e = ext();
    e.wrappers = vec![wrap("", "OR")];
    assert!(validate(&e).is_err());
    let mut e = ext();
    e.game_launch_args = vec![ArgSpec { requirement: Some("a@".into()), value: "x".into() }];
    assert!(validate(&e).is_err());
    let mut e = ext();
    e.ui.insert("S".into(), vec![field(FieldType::Toggle, "a", Some("a b"))]);
    assert!(validate(&e).is_err());
}

#[test]
fn a_requirement_is_checked_where_it_stands() {
    let global = Some("global:b".to_string());
    assert!(check_requires("id", &global, true).is_ok());
    assert!(matches!(
        check_requires("id", &global, false),
        Err(RitzError::InvalidExtension { .. })
    ));
    assert!(check_requires("id", &None, false).is_ok());
}

#[test]
fn later_extensions_replace_earlier_ones() {
    let mut first = load("/a/x.json", named("R", "X", "1")).unwrap();
    first.dir = "/a".into();
    let other = load("/a/y.json", named("R", "Y", "1")).unwrap();
    let mut second = load("/b/x.json", named("R", "X", "1")).unwrap();
    second.dir = "/b".into();
    let earlier = vec![ExtensionLoadError::Parse { path: "p".into(), reason: "r".into() }];
    let (exts, errors) = load_all(&vec![first, other, second], &earlier);
    assert_eq!(exts.len(), 2);
    let x = exts.iter().find(|e| e.spec.meta.name == "X").unwrap();
    assert_eq!(x.dir, "/b");
    assert_eq!(errors.len(), 1);
    assert!(matches!(errors[0], ExtensionLoadError::Parse { .. }));
}

#[test]
fn problems_are_told() {
    let parse = ExtensionLoadError::Parse { path: "/e/a.json".into(), reason: "bad".into() };
    assert!(parse.message().contains("/e/a.json"));
    assert!(parse.message().contains("bad"));
    let dup = ExtensionLoadError::Dup {
        author: "R".into(),
        name: "X".into(),
        paths: vec!["/a".into(), "/b".into()],
    };
    assert!(dup.message().contains("R"));
    assert!(dup.message().contains("/a"));
    assert!(dup.message().contains("/b"));
    let io = RitzError::Io { path: "/p".into(), source: "gone".into() };
    assert_eq!(io.message(), "io error at /p: gone");
    let json = RitzError::Json { path: "/p".into(), source: "odd".into() };
    assert_eq!(json.message(), "json error at /p: odd");
    let invalid = RitzError::InvalidExtension { id: "a::b::c".into(), reason: "why".into() };
    assert_eq!(invalid.message(), "invalid extension `a::b::c`: why");
}

#[test]
fn a_folder_extension_is_named_like_its_folder() {
    let e = accept_manifest(
        ext(),
        "/e/scripts".into(),
        "/e/scripts/scripts.json".into(),
        "scripts".into(),
        Some("scripts"),
        Some("scripts"),
    )
    .unwrap();
    assert!(e.is_folder_ext);
    assert_eq!(e.rel_dir, "scripts");
    let e = accept_manifest(
        ext(),
        "/e".into(),
        "/e/a.json".into(),
        "".into(),
        Some("a"),
        Some("e"),
    )
    .unwrap();
    assert!(!e.is_folder_ext);
    let mut bad = ext();
    bad.ui.insert("S".into(), vec![toggle("v"), toggle("v")]);
    assert!(accept_manifest(bad, "".into(), "".into(), "".into(), None, None).is_err());
}

#[test]
fn extensions_are_loaded_in_the_order_of_their_ids() {
    let found = vec![
        load("/e/z.json", named("Z", "m", "1.0")).unwrap(),
        load("/e/b.json", named("A", "n", "2.0")).unwrap(),
        load("/e/a.json", named("A", "n", "1.0")).unwrap(),
        load("/e/later.json", named("Z", "m", "1.0")).unwrap(),
    ];
    let (exts, errors) = load_all(&found, &Vec::new());
    let ids: Vec<String> = exts.iter().map(|e| e.spec.id()).collect();
    assert_eq!(ids, vec!["A::n::1.0", "A::n::2.0", "Z::m::1.0"]);
    assert_eq!(exts[2].manifest, "/e/later.json");
    // The manifests of a collision stand in that order too.
    assert!(matches!(
        &errors[0],
        ExtensionLoadError::Dup { paths, .. } if *paths == vec!["/e/a.json", "/e/b.json"]
    ));
    assert_eq!(errors.len(), 1);
}
