use ritz::cli::{
    after_splash, code_for_action, create_new_game, edit_args, env_appid, finish_splash,
    finish_wizard, launches_after_editor,
    is_steam_id, mode, name_guess, pinned_profiles, screen, splash_args, splash_timeout, status,
    steam_name, steam_name_in, store_url, AfterSplash, Mode, Screen, Shown, UsageError, SPLASH_CANCEL, SPLASH_EDIT,
    SPLASH_LAUNCH,
};
use ritz::config::{GameConfig, GeneralConfig};
use ritz::splash::{NewGameChoice, SplashAction};
use ritz::value::Json;

fn toks(s: &[&str]) -> Vec<String> {
    s.iter().map(|x| x.to_string()).collect()
}

#[test]
fn the_first_argument_decides() {
    assert_eq!(mode(&toks(&[])), Mode::Gui);
    assert_eq!(mode(&toks(&["--print", "x"])), Mode::Print);
    assert_eq!(mode(&toks(&["--splash"])), Mode::Splash);
    assert_eq!(mode(&toks(&["--edit"])), Mode::Edit);
    assert_eq!(mode(&toks(&["/game", "--print"])), Mode::Launch);
}

#[test]
fn statuses_are_the_low_bits() {
    for code in [0, 1, 10, 137, 255, 256, 300, -1, i32::MIN, i32::MAX] {
        assert_eq!(status(code), code as u8);
    }
}

#[test]
fn the_own_id_goes_before_the_one_of_steam() {
    assert_eq!(env_appid(Some("a".into()), Some("b".into())).as_deref(), Some("a"));
    assert_eq!(env_appid(None, Some("b".into())).as_deref(), Some("b"));
    assert_eq!(env_appid(None, None), None);
}

#[test]
fn arguments_of_the_splash() {
    let a = splash_args(&toks(&["730", "--", "g", "--", "x"])).unwrap();
    assert_eq!(a.appid, "730");
    assert_eq!(a.command, toks(&["g", "--", "x"]));
    assert!(splash_args(&toks(&["730"])).unwrap().command.is_empty());
    let e = splash_args(&toks(&[])).unwrap_err();
    assert_eq!(e, UsageError::SplashWithoutAppid);
    assert_eq!(e.message(), "--splash requires an appid");
}

#[test]
fn arguments_of_the_editor() {
    let a = edit_args(&toks(&["--launch", "730", "--", "g"])).unwrap();
    assert!(a.launch_mode);
    assert_eq!(a.appid, "730");
    assert_eq!(a.command, toks(&["g"]));
    let a = edit_args(&toks(&["730"])).unwrap();
    assert!(!a.launch_mode);
    assert_eq!(a.command, toks(&["%command%"]));
    let e = edit_args(&toks(&["--launch"])).unwrap_err();
    assert_eq!(e, UsageError::EditWithoutAppid);
    assert_eq!(e.message(), "--edit requires an appid");
}

#[test]
fn the_choice_comes_back() {
    for (action, code, then) in [
        (SplashAction::Launch, SPLASH_LAUNCH, AfterSplash::Launch),
        (SplashAction::Cancel, SPLASH_CANCEL, AfterSplash::Cancel),
        (SplashAction::Edit, SPLASH_EDIT, AfterSplash::Edit),
    ] {
        assert_eq!(code_for_action(action), code);
        assert_eq!(after_splash(Some(code)), then);
    }
    assert_eq!((SPLASH_LAUNCH, SPLASH_CANCEL, SPLASH_EDIT), (0, 10, 11));
    assert_eq!(after_splash(Some(1)), AfterSplash::Launch);
    assert_eq!(after_splash(None), AfterSplash::Launch);
}

#[test]
fn the_screen_of_a_game() {
    assert_eq!(screen("unknown", false), Screen::Unknown);
    assert_eq!(screen("unknown", true), Screen::Countdown);
    assert_eq!(screen("730", false), Screen::NewGame);
    assert_eq!(screen("730", true), Screen::Countdown);
}

#[test]
fn the_wizard_saves_unless_cancelled() {
    let (code, saved) = finish_wizard("730", NewGameChoice::Cancel);
    assert_eq!(code, SPLASH_CANCEL);
    assert!(saved.is_none());
    let (code, saved) = finish_wizard(
        "730",
        NewGameChoice::Launch { name: "G".into(), profile: Some("p".into()) },
    );
    assert_eq!(code, SPLASH_LAUNCH);
    let game = saved.unwrap();
    assert_eq!(game.game.name, "G");
    assert_eq!(game.config.modules.preset.as_deref(), Some("p"));
    let (code, saved) =
        finish_wizard("730", NewGameChoice::Edit { name: "G".into(), profile: None });
    assert_eq!(code, SPLASH_EDIT);
    assert!(saved.unwrap().config.modules.preset.is_none());
    assert_eq!(create_new_game("7", "N", None).game.appid, "7");
}

#[test]
fn a_game_can_have_a_timeout_of_its_own() {
    let general = GeneralConfig::default();
    let mut game = GameConfig::new("7", "g");
    assert_eq!(splash_timeout(&game, &general), 3);
    game.config.general.splash_timeout_secs = Some(0);
    assert_eq!(splash_timeout(&game, &general), 0);
}

#[test]
fn names_are_guessed() {
    assert!(is_steam_id("730"));
    assert!(!is_steam_id("73a"));
    assert!(is_steam_id(""));
    let folder = Some("Folder".to_string());
    assert_eq!(name_guess("730", Some("Steam".into()), &folder), "Steam");
    assert_eq!(name_guess("my", Some("Steam".into()), &folder), "Folder");
    assert_eq!(name_guess("730", None, &folder), "Folder");
    assert_eq!(name_guess("730", None, &None), "");
    assert_eq!(
        store_url("730"),
        "https://store.steampowered.com/api/appdetails?appids=730&filters=basic"
    );
}

fn obj(members: Vec<(&str, Json)>) -> Json {
    Json::Object(members.into_iter().map(|(k, v)| (k.to_string(), v)).collect())
}

#[test]
fn the_answer_of_steam() {
    let answer = |success: Json, name: Json| {
        obj(vec![("730", obj(vec![("success", success), ("data", obj(vec![("name", name)]))]))])
    };
    let name = |s: &str| Json::String(s.to_string());
    assert_eq!(steam_name(&answer(Json::Bool(true), name("CS2")), "730").as_deref(), Some("CS2"));
    assert_eq!(steam_name(&answer(Json::Bool(true), name("CS2")), "1"), None);
    assert_eq!(steam_name(&answer(Json::Bool(false), name("CS2")), "730"), None);
    assert_eq!(steam_name(&answer(name("true"), name("CS2")), "730"), None);
    assert_eq!(steam_name(&answer(Json::Bool(true), name("")), "730"), None);
    assert_eq!(steam_name(&answer(Json::Bool(true), Json::Null), "730"), None);
    assert_eq!(steam_name(&Json::Null, "730"), None);
}

#[test]
fn pins_are_by_slot_and_ten_at_most() {
    let mut profiles: Vec<(String, Option<u8>)> = vec![("none".into(), None)];
    for i in (0..12u8).rev() {
        profiles.push((format!("p{i}"), Some(i)));
    }
    profiles.push(("late".into(), Some(0)));
    let pins = pinned_profiles(&profiles);
    assert_eq!(pins.len(), 10);
    assert_eq!(pins[0], (0, "p0".to_string()));
    assert_eq!(pins[1], (0, "late".to_string()));
    assert_eq!(pins[9], (8, "p8".to_string()));
}

#[test]
fn the_id_screen_cancels_and_saves_nothing() {
    assert_eq!(screen("unknown", false), Screen::Unknown);
    let (code, saved) = finish_splash("unknown", Shown::Unknown);
    assert_eq!(code, SPLASH_CANCEL);
    assert!(saved.is_none());
    assert_eq!(after_splash(Some(code)), AfterSplash::Cancel);
}

#[test]
fn each_screen_ends_with_its_code() {
    let choice = NewGameChoice::Edit { name: "G".into(), profile: None };
    let (code, saved) = finish_splash("730", Shown::NewGame(choice));
    assert_eq!(code, SPLASH_EDIT);
    assert_eq!(saved.unwrap().game.name, "G");
    let (code, saved) = finish_splash("730", Shown::Countdown(SplashAction::Cancel));
    assert_eq!(code, SPLASH_CANCEL);
    assert!(saved.is_none());
}

#[test]
fn the_editor_stops_the_launch_unless_it_succeeds() {
    assert!(launches_after_editor(true, Some(0)));
    assert!(!launches_after_editor(true, Some(1)));
    assert!(!launches_after_editor(true, None));
    // An editor that cannot be opened does not stop it.
    assert!(launches_after_editor(false, None));
}

#[test]
fn the_name_is_read_from_the_answer() {
    let answer = br#"{"730":{"success":true,"data":{"name":"CS \u0032","n":[1.5,null]}}}"#;
    assert_eq!(steam_name_in(answer, "730").as_deref(), Some("CS 2"));
    assert_eq!(steam_name_in(answer, "731"), None);
    assert_eq!(steam_name_in(br#"{"730":{"success":false}}"#, "730"), None);
    assert_eq!(steam_name_in(b"<html>", "730"), None);
    assert_eq!(steam_name_in(b"", "730"), None);
}
