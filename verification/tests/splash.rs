use ritz::splash::{
    choice_without_display, clipboard_tools, countdown, fit_text, keybind_char, qwe_action,
    remaining_nanos, sanitize_appid, skips_splash, splash_keys, Clicks, Intents, Keys, NewGameApp,
    NewGameChoice, NewState, SplashAction, UnknownApp,
};

fn keys() -> Keys {
    Keys { escape: false, enter: false, q: false, w: false, e: false, digits: vec![] }
}

fn clicks() -> Clicks {
    Clicks { cancel: false, confirm: false, use_default: false, card: None, qwe: None }
}

fn nothing() -> Intents {
    Intents { cancel: false, confirm_name: false, qwe: None }
}

fn wizard() -> NewGameApp {
    NewGameApp::new(
        "730",
        &vec![(1, "one".to_string()), (10, "ten".to_string())],
        Some("default"),
        "Guess",
    )
}

/// A frame in which these keys are pressed and nothing is clicked.
fn press(app: &mut NewGameApp, k: &Keys) -> Option<NewGameChoice> {
    let intents = app.take_keys(k);
    app.take_clicks(intents, &clicks())
}

#[test]
fn the_countdown_launches() {
    assert!(skips_splash(false, 3));
    assert!(skips_splash(true, 0));
    assert!(!skips_splash(true, 3));
    assert_eq!(remaining_nanos(3, 1_000_000_000), 2_000_000_000);
    assert_eq!(remaining_nanos(3, 4_000_000_000), 0);
    assert_eq!(countdown(&keys(), 3, 2_999_999_999), None);
    assert_eq!(countdown(&keys(), 3, 3_000_000_000), Some(SplashAction::Launch));
    let cancel = Keys { q: true, ..keys() };
    assert_eq!(countdown(&cancel, 3, 3_000_000_000), Some(SplashAction::Cancel));
}

#[test]
fn keys_of_the_splash() {
    assert_eq!(splash_keys(&keys()), None);
    assert_eq!(splash_keys(&Keys { q: true, w: true, ..keys() }), Some(SplashAction::Cancel));
    assert_eq!(splash_keys(&Keys { escape: true, e: true, ..keys() }), Some(SplashAction::Cancel));
    assert_eq!(splash_keys(&Keys { enter: true, e: true, ..keys() }), Some(SplashAction::Launch));
    assert_eq!(splash_keys(&Keys { e: true, ..keys() }), Some(SplashAction::Edit));
    assert_eq!(qwe_action(0), SplashAction::Cancel);
    assert_eq!(qwe_action(1), SplashAction::Launch);
    assert_eq!(qwe_action(2), SplashAction::Edit);
}

#[test]
fn the_wizard_goes_from_name_to_launch() {
    let mut app = wizard();
    assert!(app.focus_name);
    app.enter_name("  My Game ");
    assert!(press(&mut app, &Keys { enter: true, ..keys() }).is_none());
    assert_eq!(app.state, NewState::Choosing);
    // Slot ten is on the zero key.
    assert!(press(&mut app, &Keys { digits: vec![0], ..keys() }).is_none());
    assert_eq!(app.state, NewState::Confirm(Some("ten".into())));
    // The name is fixed by now.
    app.enter_name("");
    assert_eq!(app.name_buf, "  My Game ");
    assert_eq!(
        press(&mut app, &Keys { enter: true, ..keys() }),
        Some(NewGameChoice::Launch { name: "My Game".into(), profile: Some("ten".into()) })
    );
}

#[test]
fn a_blank_name_is_not_taken() {
    let mut app = wizard();
    app.name_buf = " \t".into();
    assert!(press(&mut app, &Keys { enter: true, ..keys() }).is_none());
    assert_eq!(app.state, NewState::Naming);
    // Letters are typed into the name, and pick nothing.
    assert!(press(&mut app, &Keys { q: true, w: true, digits: vec![1], ..keys() }).is_none());
    assert_eq!(app.state, NewState::Naming);
}

#[test]
fn the_wizard_can_be_clicked_through() {
    let mut app = wizard();
    assert!(app.take_clicks(nothing(), &Clicks { confirm: true, ..clicks() }).is_none());
    assert_eq!(app.state, NewState::Choosing);
    assert!(app.take_clicks(nothing(), &Clicks { card: Some("one".into()), ..clicks() }).is_none());
    assert_eq!(app.state, NewState::Confirm(Some("one".into())));
    assert_eq!(
        app.take_clicks(nothing(), &Clicks { qwe: Some(2), ..clicks() }),
        Some(NewGameChoice::Edit { name: "Guess".into(), profile: Some("one".into()) })
    );
    let mut app = wizard();
    app.state = NewState::Choosing;
    assert!(app.take_clicks(nothing(), &Clicks { use_default: true, ..clicks() }).is_none());
    assert_eq!(app.state, NewState::Confirm(Some("default".into())));
    assert_eq!(
        app.take_clicks(nothing(), &Clicks { qwe: Some(0), ..clicks() }),
        Some(NewGameChoice::Cancel)
    );
}

#[test]
fn cancelling_cancels_in_every_step() {
    for state in [NewState::Naming, NewState::Choosing, NewState::Confirm(None)] {
        let mut app = wizard();
        app.state = state;
        assert_eq!(
            press(&mut app, &Keys { escape: true, enter: true, ..keys() }),
            Some(NewGameChoice::Cancel)
        );
        let mut app = wizard();
        assert_eq!(
            app.take_clicks(nothing(), &Clicks { cancel: true, confirm: true, ..clicks() }),
            Some(NewGameChoice::Cancel)
        );
    }
}

#[test]
fn keys_of_the_choice() {
    let mut app = wizard();
    app.state = NewState::Choosing;
    press(&mut app, &Keys { digits: vec![5], ..keys() });
    assert_eq!(app.state, NewState::Choosing);
    press(&mut app, &Keys { w: true, digits: vec![1], ..keys() });
    assert_eq!(app.state, NewState::Confirm(Some("default".into())));
    assert_eq!(
        press(&mut app, &Keys { e: true, ..keys() }),
        Some(NewGameChoice::Edit { name: "Guess".into(), profile: Some("default".into()) })
    );
    assert_eq!(keybind_char(10), '0');
    assert_eq!(keybind_char(3), '3');
}

#[test]
fn without_a_display_the_guess_is_taken() {
    assert_eq!(
        choice_without_display("G", Some("p")),
        NewGameChoice::Launch { name: "G".into(), profile: Some("p".into()) }
    );
}

#[test]
fn texts_are_cut_to_fit() {
    let too_wide = |s: &str| s.chars().count() > 5;
    assert_eq!(fit_text("abcdef", false, &too_wide), "abc..");
    assert_eq!(fit_text("äöüäöü", false, &too_wide), "äöü..");
    assert_eq!(fit_text("abc", true, &too_wide), "abc");
    assert_eq!(fit_text("abc", false, &|_: &str| true), "..");
}

#[test]
fn ids_are_made_of_safe_characters() {
    assert_eq!(sanitize_appid("  My Game: 2! "), "My_Game_2");
    assert_eq!(sanitize_appid("a\u{a0}b-c_d"), "a_b-c_d");
    assert_eq!(sanitize_appid("Ünï"), "n");
    assert_eq!(sanitize_appid(" "), "");
}

#[test]
fn an_unknown_game_is_given_an_id() {
    let mut app = UnknownApp::new(&vec!["taken".to_string()]);
    assert!(app.focus_name);
    assert_eq!(app.id(), "");
    assert!(!app.conflict(""));
    assert_eq!(UnknownApp::shown(""), "RITZ_APPID=<name> ritz %command%");
    assert_eq!(app.take_frame("", false, true), None);
    app.name_buf = "taken".into();
    assert!(app.conflict(&app.id()));
    assert_eq!(
        UnknownApp::warning("taken"),
        "ID \"taken\" already exists — pick another name."
    );
    assert_eq!(UnknownApp::shown("x"), "RITZ_APPID=x ritz %command%");
    assert_eq!(app.copy_label(), "Copy (Enter)");
    assert_eq!(
        app.take_frame("x", true, true).as_deref(),
        Some("RITZ_APPID=x ritz %command%")
    );
    assert_eq!(app.copy_label(), "Copied!");
    assert_eq!(app.take_frame("x", true, false), None);
    assert!(!app.copied);
    assert_eq!(UnknownApp::take_keys(&Keys { escape: true, enter: true, ..keys() }), (true, false));
    assert_eq!(UnknownApp::take_keys(&Keys { enter: true, ..keys() }), (false, true));
}

#[test]
fn clipboard_tools_by_display() {
    let tools = clipboard_tools(true);
    assert_eq!(tools, vec![("wl-copy".to_string(), vec![])]);
    let tools = clipboard_tools(false);
    assert_eq!(tools[0].0, "xclip");
    assert_eq!(tools[0].1, vec!["-selection", "clipboard"]);
    assert_eq!(tools[1].0, "xsel");
    assert_eq!(tools[1].1, vec!["--clipboard", "--input"]);
}

#[test]
fn nothing_is_picked_before_there_is_a_name() {
    let mut app = wizard();
    app.enter_name(" ");
    let both = Clicks { card: Some("one".into()), use_default: true, qwe: Some(1), ..clicks() };
    assert!(app.take_clicks(nothing(), &both).is_none());
    assert_eq!(app.state, NewState::Naming);
}
