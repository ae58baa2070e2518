use ritz::lsfg_toml::{
    apply, apply_to_doc, set_multiplier, set_multiplier_in_doc, LsfgSettings, RITZ_EXE,
};

fn settings() -> LsfgSettings {
    LsfgSettings {
        multiplier: 3,
        flow_scale: Some("0.8".into()),
        performance_mode: Some(true),
        hdr_mode: Some(false),
        present_mode: Some("fifo".into()),
    }
}

#[test]
fn apply_to_empty_creates_entry() {
    let out = apply("", &settings()).unwrap();
    let doc: toml::Table = out.parse().unwrap();
    let games = doc["game"].as_array().unwrap();
    assert_eq!(games.len(), 1);
    let g = games[0].as_table().unwrap();
    assert_eq!(g["exe"].as_str(), Some(RITZ_EXE));
    assert_eq!(g["multiplier"].as_integer(), Some(3));
    assert_eq!(g["flow_scale"].as_float(), Some(0.8));
    assert_eq!(g["experimental_present_mode"].as_str(), Some("fifo"));
}

#[test]
fn apply_preserves_other_games() {
    let existing = r#"
version = 1
[[game]]
exe = "OtherGame"
multiplier = 2
"#;
    let out = apply(existing, &settings()).unwrap();
    let doc: toml::Table = out.parse().unwrap();
    let games = doc["game"].as_array().unwrap();
    assert_eq!(games.len(), 2, "other game preserved + ritz added");
    assert!(games
        .iter()
        .any(|g| g.get("exe").and_then(|e| e.as_str()) == Some("OtherGame")));
    assert!(games
        .iter()
        .any(|g| g.get("exe").and_then(|e| e.as_str()) == Some(RITZ_EXE)));
}

#[test]
fn apply_updates_existing_ritz_entry() {
    let first = apply("", &settings()).unwrap();
    let mut s2 = settings();
    s2.multiplier = 4;
    let second = apply(&first, &s2).unwrap();
    let doc: toml::Table = second.parse().unwrap();
    let games = doc["game"].as_array().unwrap();
    assert_eq!(games.len(), 1, "ritz entry updated, not duplicated");
    assert_eq!(games[0]["multiplier"].as_integer(), Some(4));
}

#[test]
fn set_multiplier_hot_patch() {
    // Activation delay: start at 1, then bump to target.
    let mut s = settings();
    s.multiplier = 1;
    let at_one = apply("", &s).unwrap();
    let bumped = set_multiplier(&at_one, 3).unwrap();
    let doc: toml::Table = bumped.parse().unwrap();
    let g = doc["game"].as_array().unwrap()[0].as_table().unwrap();
    assert_eq!(g["multiplier"].as_integer(), Some(3));
    // other settings preserved
    assert_eq!(g["flow_scale"].as_float(), Some(0.8));
}

#[test]
fn a_late_multiplier_comes_to_the_same() {
    let mut early = settings();
    early.multiplier = 1;
    let patched = set_multiplier(&apply("", &early).unwrap(), 3).unwrap();
    assert_eq!(patched, apply("", &settings()).unwrap());
}

#[test]
fn applying_twice_is_applying_once() {
    let once = apply("other = 7", &settings()).unwrap();
    assert_eq!(apply(&once, &settings()).unwrap(), once);
    assert!(once.contains("other = 7"));
    assert!(once.contains("version = 1"));
}

#[test]
fn blank_text_is_an_empty_document() {
    assert_eq!(apply(" \n\t", &settings()).unwrap(), apply("", &settings()).unwrap());
}

#[test]
fn text_that_is_no_toml_is_an_error() {
    let e = apply("= nonsense", &settings()).unwrap_err();
    assert!(e.message().starts_with("condition parse error: lsfg conf.toml parse error: "));
    assert!(set_multiplier("[", 2).is_err());
}

#[test]
fn a_game_that_is_no_list_is_replaced() {
    let out = apply("game = 5\nversion = 2", &settings()).unwrap();
    let doc: toml::Table = out.parse().unwrap();
    assert_eq!(doc["version"].as_integer(), Some(2));
    assert_eq!(doc["game"].as_array().unwrap().len(), 1);
}

#[test]
fn what_is_not_set_is_left_alone() {
    let existing = "[[game]]\nexe = \"RitzLauncher\"\nhdr_mode = true\nextra = 1979-05-27\n";
    let s = LsfgSettings {
        multiplier: 2,
        flow_scale: Some("fast".into()),
        performance_mode: None,
        hdr_mode: None,
        present_mode: None,
    };
    let doc: toml::Table = apply(existing, &s).unwrap().parse().unwrap();
    let g = doc["game"].as_array().unwrap()[0].as_table().unwrap();
    assert_eq!(g["hdr_mode"].as_bool(), Some(true));
    assert_eq!(g["extra"].as_datetime().unwrap().to_string(), "1979-05-27");
    assert!(!g.contains_key("flow_scale"), "not a number");
    assert!(!g.contains_key("performance_mode"));
}

#[test]
fn documents_are_changed_in_place() {
    let mut other = toml::Table::new();
    other.insert("exe".into(), toml::Value::String("Other".into()));
    let mut ours = toml::Table::new();
    ours.insert("exe".into(), toml::Value::String(RITZ_EXE.into()));
    let mut doc = toml::Table::new();
    doc.insert(
        "game".into(),
        toml::Value::Array(vec![
            toml::Value::Integer(9),
            toml::Value::Table(ours),
            toml::Value::Table(other.clone()),
        ]),
    );
    let doc = set_multiplier_in_doc(doc, 5);
    let games = doc["game"].as_array().unwrap();
    assert_eq!(games.len(), 3);
    assert_eq!(games[0].as_integer(), Some(9));
    assert_eq!(games[1]["multiplier"].as_integer(), Some(5));
    assert_eq!(games[2], toml::Value::Table(other));
    assert_eq!(doc["version"].as_integer(), Some(1));
    let doc = apply_to_doc(doc, &settings());
    assert_eq!(doc["game"].as_array().unwrap()[1]["hdr_mode"].as_bool(), Some(false));
}
