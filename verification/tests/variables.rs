use ritz::error::RitzError;
use ritz::ordered::OrderedMap;
use ritz::schema::{FieldType, UiField};
use ritz::variables::{resolve_field, ui_requires_is_valid, ResolvedVar, VarStore};

fn store() -> VarStore {
    let mut s = VarStore::new();
    s.insert_local("gamescope_enabled", ResolvedVar::new(true, "true"));
    s.insert_local("backend", ResolvedVar::new(true, "sdl"));
    s.insert_local("sharpness", ResolvedVar::new(true, "5"));
    s.insert_global("global:hdr_on", ResolvedVar::new(true, "true"));
    s
}

#[test]
fn truthy_and_value() {
    let s = store();
    assert!(s.truthy("gamescope_enabled"));
    assert!(!s.truthy("missing"));
    assert_eq!(s.value("backend"), "sdl");
    assert_eq!(s.value("missing"), "");
}

#[test]
fn global_scoping() {
    let s = store();
    assert!(s.truthy("global:hdr_on"));
    // bare name (not global) is not found locally
    assert!(!s.truthy("hdr_on"));
}

#[test]
fn interpolation() {
    let s = store();
    assert_eq!(s.interpolate("--backend {backend}"), "--backend sdl");
    assert_eq!(s.interpolate("--sharpness {sharpness}"), "--sharpness 5");
    assert_eq!(s.interpolate("{missing}x"), "x");
    assert_eq!(s.interpolate("{{literal}}"), "{literal}");
}

fn field(field_type: FieldType) -> UiField {
    UiField {
        name: None,
        description: None,
        field_type,
        variable: "x".into(),
        default: None,
        options: None,
        display_options: None,
        requirement: None,
    }
}

#[test]
fn resolve_toggle() {
    let field = field(FieldType::Toggle);
    assert!(resolve_field(&field, true, Some("true")).truthy);
    assert!(!resolve_field(&field, true, Some("false")).truthy);
}

#[test]
fn ui_requires_rejects_global() {
    assert!(ui_requires_is_valid("a AND b").is_ok());
    assert!(ui_requires_is_valid("a AND global:b").is_err());
}

#[test]
fn ui_requires_names_the_global() {
    match ui_requires_is_valid("a AND global:b") {
        Err(RitzError::Condition(m)) => {
            assert_eq!(m, "`global:` reference `global:b` is not allowed in a UI Requires")
        }
        _ => panic!("a global was accepted"),
    }
    assert!(ui_requires_is_valid("").is_ok());
    assert!(matches!(ui_requires_is_valid("a b"), Err(RitzError::Condition(_))));
}

#[test]
fn other_fields_resolve_to_their_text() {
    let f = field(FieldType::Selection);
    let v = resolve_field(&f, true, Some("sdl"));
    assert!(v.truthy);
    assert_eq!(v.value, "sdl");
    // Switched off, it is nothing at all.
    let v = resolve_field(&f, false, Some("sdl"));
    assert!(!v.truthy);
    assert_eq!(v.value, "");
    // An empty text is nothing, too.
    for t in [FieldType::Integer, FieldType::Float, FieldType::String, FieldType::MultiString] {
        assert!(!resolve_field(&field(t), true, Some("")).truthy);
        assert_eq!(resolve_field(&field(t), true, Some("7")).value, "7");
    }
    // A toggle goes by what is stored, and by its checkbox where nothing is.
    let toggle = field(FieldType::Toggle);
    assert!(resolve_field(&toggle, false, Some("true")).truthy);
    assert!(resolve_field(&toggle, true, None).truthy);
    assert_eq!(resolve_field(&toggle, false, None).value, "false");
    assert_eq!(ResolvedVar::falsy(), ResolvedVar::new(false, ""));
}

#[test]
fn a_local_and_a_global_of_one_name_do_not_mix() {
    let mut s = VarStore::new();
    s.insert_local("hdr", ResolvedVar::new(true, "local"));
    s.insert_global("hdr", ResolvedVar::new(false, "shared"));
    assert_eq!(s.value("hdr"), "local");
    assert_eq!(s.value("global:hdr"), "shared");
    assert!(s.truthy("hdr"));
    assert!(!s.truthy("global:hdr"));
    let lookup = s.lookup_fn();
    assert!(lookup("hdr"));
    assert!(!lookup("global:hdr"));
}

#[test]
fn a_store_starts_from_the_shared_variables() {
    let mut shared: OrderedMap<ResolvedVar> = OrderedMap::new();
    shared.insert("x".to_string(), ResolvedVar::new(true, "1"));
    let s = VarStore::with_global(shared);
    assert_eq!(s.value("global:x"), "1");
    assert_eq!(s.value("x"), "");
}

#[test]
fn interpolation_leaves_what_is_no_token() {
    let s = store();
    assert_eq!(s.interpolate("a } b"), "a } b");
    assert_eq!(s.interpolate("tail {backend"), "tail {backend");
    assert_eq!(s.interpolate("{backend}{sharpness}"), "sdl5");
    assert_eq!(s.interpolate("{{{backend}}}"), "{sdl}");
    assert_eq!(s.interpolate(""), "");
}
