//! The command line: which mode an invocation asks for, and what the processes of
//! a launch tell each other.
//!
//! - no arguments: the settings GUI
//! - `%command%`: splash, then perhaps the editor, then the launch
//! - `--print %command%`: print the assembled command
//! - `--splash <appid> -- %command%`: the splash window (own process)
//! - `--edit [--launch] <appid> [-- %command%]`: the settings GUI (own process)

use crate::config::{new_game, GameConfig, GameConfigView, GeneralConfig, GeneralConfigView};
use crate::number::all_digits;
use crate::sorting::{order, sort, sorted, Ordered};
use crate::splash::{ChoiceView, NewGameChoice, SplashAction};
use crate::text::{begins, chars_of, is_digit, same_text, starts_with};
use crate::value::{json_parsed, parse_json, Json, ValueView};
use vstd::prelude::*;

verus! {

/// The exit code with which the splash process reports that the game is launched.
pub const SPLASH_LAUNCH: i32 = 0;

/// The exit code for a launch that was called off.
pub const SPLASH_CANCEL: i32 = 10;

/// The exit code for the editor to be opened instead.
pub const SPLASH_EDIT: i32 = 11;

/// What an invocation asks for.
#[derive(Debug, Clone, Copy, PartialEq, Eq, Structural)]
pub enum Mode {
    Print,
    Splash,
    Edit,
    Gui,
    Launch,
}

/// What an invocation asks for: the first argument decides.
pub open spec fn mode_of(args: Seq<Seq<char>>) -> Mode {
    if args.len() == 0 {
        Mode::Gui
    } else if args[0] == "--print"@ {
        Mode::Print
    } else if args[0] == "--splash"@ {
        Mode::Splash
    } else if args[0] == "--edit"@ {
        Mode::Edit
    } else {
        Mode::Launch
    }
}

/// What an invocation asks for: the first argument decides.
pub fn mode(args: &[String]) -> (r: Mode)
    ensures
        r == mode_of(args.deep_view()),
{
    if args.len() == 0 {
        return Mode::Gui;
    }
    let first = args[0].as_str();
    assert(args.deep_view()[0] == first@);
    if same_text(first, "--print") {
        Mode::Print
    } else if same_text(first, "--splash") {
        Mode::Splash
    } else if same_text(first, "--edit") {
        Mode::Edit
    } else {
        Mode::Launch
    }
}

/// The exit status of a process that ends with `code`: its low eight bits.
pub open spec fn status_of(code: i32) -> int {
    code as int % 256
}

/// The exit status of a process that ends with `code`.
pub fn status(code: i32) -> (r: u8)
    ensures
        r == status_of(code),
{
    let c: i64 = code as i64;
    let low: i64 = c % 256;
    if low < 0 {
        (low + 256) as u8
    } else {
        low as u8
    }
}

/// The id that the environment gives a game.
pub open spec fn appid_given(ritz: Option<Seq<char>>, steam: Option<Seq<char>>) -> Option<
    Seq<char>,
> {
    match ritz {
        Some(id) => Some(id),
        None => steam,
    }
}

/// The id that the environment gives a game: `RITZ_APPID` goes before
/// `SteamAppId`.
pub fn env_appid(ritz: Option<String>, steam: Option<String>) -> (r: Option<String>)
    ensures
        r.deep_view() == appid_given(ritz.deep_view(), steam.deep_view()),
{
    match ritz {
        Some(id) => Some(id),
        None => steam,
    }
}

// ---- Arguments of the window processes -------------------------------------

/// The position of the first `--`, or the number of arguments.
pub open spec fn dashes(args: Seq<Seq<char>>, from: int) -> int
    decreases args.len() - from,
{
    if from < 0 || from >= args.len() {
        args.len() as int
    } else if args[from] == "--"@ {
        from
    } else {
        dashes(args, from + 1)
    }
}

/// The arguments behind the first `--`.
pub open spec fn behind_dashes(args: Seq<Seq<char>>) -> Option<Seq<Seq<char>>> {
    if dashes(args, 0) < args.len() {
        Some(args.skip(dashes(args, 0) + 1))
    } else {
        None
    }
}

fn command_in(args: &[String]) -> (r: Option<Vec<String>>)
    ensures
        r.deep_view() == behind_dashes(args.deep_view()),
{
    let ghost d = args.deep_view();
    let n: usize = args.len();
    let mut i: usize = 0;
    while i < n && !same_text(args[i].as_str(), "--")
        invariant
            d == args.deep_view(),
            i <= n == args@.len(),
            dashes(d, 0) == dashes(d, i as int),
        decreases n - i,
    {
        assert(d[i as int] == args@[i as int]@);
        i += 1;
    }
    if i == n {
        return None;
    }
    assert(d[i as int] == args@[i as int]@);
    let ghost rest = d.skip(i + 1);
    let mut out: Vec<String> = Vec::new();
    let mut j: usize = i + 1;
    assert(out.deep_view() =~= rest.take(0));
    while j < n
        invariant
            d == args.deep_view(),
            rest == d.skip(i + 1),
            i < n,
            i + 1 <= j <= n == args@.len(),
            out.deep_view() == rest.take(j - i - 1),
        decreases n - j,
    {
        let ghost before = out.deep_view();
        out.push(args[j].clone());
        assert(out.deep_view() =~= before.push(rest[j - i - 1]));
        j += 1;
        assert(out.deep_view() =~= rest.take(j - i - 1));
    }
    assert(rest.take(n - i - 1) =~= rest);
    Some(out)
}

/// What a window process was called with, and should not have been.
#[derive(Debug, Clone, Copy, PartialEq, Eq, Structural)]
pub enum UsageError {
    SplashWithoutAppid,
    EditWithoutAppid,
}

/// The text that is shown for a usage error.
pub open spec fn usage_message(e: UsageError) -> Seq<char> {
    match e {
        UsageError::SplashWithoutAppid => "--splash requires an appid"@,
        UsageError::EditWithoutAppid => "--edit requires an appid"@,
    }
}

impl UsageError {
    /// The message shown for this error.
    pub fn message(&self) -> (r: &'static str)
        ensures
            r@ == usage_message(*self),
    {
        match self {
            UsageError::SplashWithoutAppid => "--splash requires an appid",
            UsageError::EditWithoutAppid => "--edit requires an appid",
        }
    }
}

/// What `--splash` is called with.
#[derive(Debug, PartialEq, Eq)]
pub struct SplashArgs {
    pub appid: String,
    pub command: Vec<String>,
}

/// [`SplashArgs`] as contracts speak of them.
#[verifier::ext_equal]
pub struct SplashArgsView {
    pub appid: Seq<char>,
    pub command: Seq<Seq<char>>,
}

impl DeepView for SplashArgs {
    type V = SplashArgsView;

    open spec fn deep_view(&self) -> SplashArgsView {
        SplashArgsView { appid: self.appid@, command: self.command.deep_view() }
    }
}

/// What the arguments of `--splash` say.
pub open spec fn splash_asked(args: Seq<Seq<char>>) -> Result<SplashArgsView, UsageError> {
    if args.len() == 0 {
        Err(UsageError::SplashWithoutAppid)
    } else {
        Ok(
            SplashArgsView {
                appid: args[0],
                command: match behind_dashes(args) {
                    Some(c) => c,
                    None => seq![],
                },
            },
        )
    }
}

/// Parses `[appid, "--", command…]`. Without a command there is nothing to show
/// but the id.
pub fn splash_args(args: &[String]) -> (r: Result<SplashArgs, UsageError>)
    ensures
        match r {
            Ok(a) => Ok(a.deep_view()),
            Err(e) => Err(e),
        } == splash_asked(args.deep_view()),
{
    if args.len() == 0 {
        return Err(UsageError::SplashWithoutAppid);
    }
    let command = match command_in(args) {
        Some(c) => c,
        None => {
            let none: Vec<String> = Vec::new();
            assert(none.deep_view() =~= seq![]);
            none
        },
    };
    Ok(SplashArgs { appid: args[0].clone(), command })
}

/// What `--edit` is called with.
#[derive(Debug, PartialEq, Eq)]
pub struct EditArgs {
    pub launch_mode: bool,
    pub appid: String,
    pub command: Vec<String>,
}

/// [`EditArgs`] as contracts speak of them.
#[verifier::ext_equal]
pub struct EditArgsView {
    pub launch_mode: bool,
    pub appid: Seq<char>,
    pub command: Seq<Seq<char>>,
}

impl DeepView for EditArgs {
    type V = EditArgsView;

    open spec fn deep_view(&self) -> EditArgsView {
        EditArgsView {
            launch_mode: self.launch_mode,
            appid: self.appid@,
            command: self.command.deep_view(),
        }
    }
}

/// The position of the first argument that is no option, or the number of
/// arguments.
pub open spec fn first_plain(args: Seq<Seq<char>>, from: int) -> int
    decreases args.len() - from,
{
    if from < 0 || from >= args.len() {
        args.len() as int
    } else if !begins(args[from], "--"@) {
        from
    } else {
        first_plain(args, from + 1)
    }
}

/// What the arguments of `--edit` say.
pub open spec fn edit_asked(args: Seq<Seq<char>>) -> Result<EditArgsView, UsageError> {
    if first_plain(args, 0) == args.len() {
        Err(UsageError::EditWithoutAppid)
    } else {
        Ok(
            EditArgsView {
                launch_mode: args.contains("--launch"@),
                appid: args[first_plain(args, 0)],
                command: match behind_dashes(args) {
                    Some(c) => c,
                    None => seq!["%command%"@],
                },
            },
        )
    }
}

/// Parses `[("--launch")?, appid, "--", command…]`. Without a command the
/// placeholder `%command%` stands for it.
pub fn edit_args(args: &[String]) -> (r: Result<EditArgs, UsageError>)
    ensures
        match r {
            Ok(a) => Ok(a.deep_view()),
            Err(e) => Err(e),
        } == edit_asked(args.deep_view()),
{
    let ghost d = args.deep_view();
    let n: usize = args.len();
    let mut launch_mode = false;
    let mut k: usize = 0;
    while k < n
        invariant
            d == args.deep_view(),
            k <= n == args@.len(),
            launch_mode == exists|j: int| 0 <= j < k && d[j] == "--launch"@,
        decreases n - k,
    {
        assert(d[k as int] == args@[k as int]@);
        if same_text(args[k].as_str(), "--launch") {
            launch_mode = true;
        }
        k += 1;
    }
    assert(launch_mode == d.contains("--launch"@));
    let mut i: usize = 0;
    while i < n && starts_with(args[i].as_str(), "--")
        invariant
            d == args.deep_view(),
            i <= n == args@.len(),
            first_plain(d, 0) == first_plain(d, i as int),
        decreases n - i,
    {
        assert(d[i as int] == args@[i as int]@);
        i += 1;
    }
    if i == n {
        return Err(UsageError::EditWithoutAppid);
    }
    assert(d[i as int] == args@[i as int]@);
    let command = match command_in(args) {
        Some(c) => c,
        None => {
            let mut c: Vec<String> = Vec::new();
            c.push("%command%".to_owned());
            assert(c.deep_view() =~= seq!["%command%"@]);
            c
        },
    };
    Ok(EditArgs { launch_mode, appid: args[i].clone(), command })
}

// ---- What the processes tell each other ------------------------------------

/// The exit code for a choice on the splash.
pub open spec fn splash_code(a: SplashAction) -> i32 {
    match a {
        SplashAction::Launch => SPLASH_LAUNCH,
        SplashAction::Cancel => SPLASH_CANCEL,
        SplashAction::Edit => SPLASH_EDIT,
    }
}

/// The exit code for a choice on the splash.
pub fn code_for_action(a: SplashAction) -> (r: i32)
    ensures
        r == splash_code(a),
{
    match a {
        SplashAction::Launch => SPLASH_LAUNCH,
        SplashAction::Cancel => SPLASH_CANCEL,
        SplashAction::Edit => SPLASH_EDIT,
    }
}

/// What is done once the splash has ended.
#[derive(Debug, Clone, Copy, PartialEq, Eq, Structural)]
pub enum AfterSplash {
    Cancel,
    Edit,
    Launch,
}

/// What is done once the splash has ended with a code: any but those of cancel
/// and edit launches.
pub open spec fn after_code(code: i32) -> AfterSplash {
    if code == SPLASH_CANCEL {
        AfterSplash::Cancel
    } else if code == SPLASH_EDIT {
        AfterSplash::Edit
    } else {
        AfterSplash::Launch
    }
}

/// What is done once the splash has ended, with a code or without one.
pub open spec fn after_exit(code: Option<i32>) -> AfterSplash {
    match code {
        Some(c) => after_code(c),
        None => AfterSplash::Launch,
    }
}

/// What is done once the splash has ended; where it could not be shown, or was
/// ended by a signal, there is no code, and the game is launched.
pub fn after_splash(code: Option<i32>) -> (r: AfterSplash)
    ensures
        r == after_exit(code),
{
    let c = match code {
        Some(c) => c,
        None => SPLASH_LAUNCH,
    };
    if c == SPLASH_CANCEL {
        AfterSplash::Cancel
    } else if c == SPLASH_EDIT {
        AfterSplash::Edit
    } else {
        AfterSplash::Launch
    }
}

/// The screen that a splash process shows.
#[derive(Debug, Clone, Copy, PartialEq, Eq, Structural)]
pub enum Screen {
    /// A game without an id: how to set one.
    Unknown,
    /// A game that is not configured: the wizard.
    NewGame,
    /// The countdown.
    Countdown,
}

/// The screen for a game: one that is configured gets the countdown.
pub open spec fn screen_of(appid: Seq<char>, configured: bool) -> Screen {
    if configured {
        Screen::Countdown
    } else if appid == "unknown"@ {
        Screen::Unknown
    } else {
        Screen::NewGame
    }
}

/// The screen for a game.
pub fn screen(appid: &str, configured: bool) -> (r: Screen)
    ensures
        r == screen_of(appid@, configured),
{
    if configured {
        Screen::Countdown
    } else if same_text(appid, "unknown") {
        Screen::Unknown
    } else {
        Screen::NewGame
    }
}

/// The exit code for a choice in the wizard, and the game that it makes.
pub open spec fn wizard_result(appid: Seq<char>, c: ChoiceView) -> (i32, Option<GameConfigView>) {
    match c {
        ChoiceView::Cancel => (SPLASH_CANCEL, None),
        ChoiceView::Launch { name, profile } => (
            SPLASH_LAUNCH,
            Some(created(appid, name, profile)),
        ),
        ChoiceView::Edit { name, profile } => (SPLASH_EDIT, Some(created(appid, name, profile))),
    }
}

/// A new game with a name and (perhaps) a profile.
pub open spec fn created(appid: Seq<char>, name: Seq<char>, profile: Option<Seq<char>>) -> GameConfigView {
    let g = new_game(appid, name);
    GameConfigView {
        config: crate::config::GameBodyView {
            modules: crate::config::ModulesView { preset: profile, ..g.config.modules },
            ..g.config
        },
        ..g
    }
}

/// Creates a new game with the given name and (perhaps) profile.
pub fn create_new_game(appid: &str, name: &str, profile: Option<String>) -> (r: GameConfig)
    ensures
        r.deep_view() == created(appid@, name@, profile.deep_view()),
{
    let mut gc = GameConfig::new(appid, name);
    gc.config.modules.preset = profile;
    gc
}

/// What a choice in the wizard comes to: the exit code, and the game to save.
pub fn finish_wizard(appid: &str, choice: NewGameChoice) -> (r: (i32, Option<GameConfig>))
    ensures
        (r.0, r.1.deep_view()) == wizard_result(appid@, choice.deep_view()),
{
    match choice {
        NewGameChoice::Cancel => (SPLASH_CANCEL, None),
        NewGameChoice::Launch { name, profile } => (
            SPLASH_LAUNCH,
            Some(create_new_game(appid, name.as_str(), profile)),
        ),
        NewGameChoice::Edit { name, profile } => (
            SPLASH_EDIT,
            Some(create_new_game(appid, name.as_str(), profile)),
        ),
    }
}

/// What came of the screen that a splash process has shown.
#[derive(Debug)]
pub enum Shown {
    /// The id screen was closed.
    Unknown,
    /// The wizard was left with a choice.
    NewGame(NewGameChoice),
    /// The countdown ended with a choice.
    Countdown(SplashAction),
}

/// A [`Shown`] as contracts speak of it.
pub enum ShownView {
    Unknown,
    NewGame(ChoiceView),
    Countdown(SplashAction),
}

impl DeepView for Shown {
    type V = ShownView;

    open spec fn deep_view(&self) -> ShownView {
        match self {
            Shown::Unknown => ShownView::Unknown,
            Shown::NewGame(c) => ShownView::NewGame(c.deep_view()),
            Shown::Countdown(a) => ShownView::Countdown(*a),
        }
    }
}

impl ShownView {
    /// The screen that was shown.
    pub open spec fn screen(self) -> Screen {
        match self {
            ShownView::Unknown => Screen::Unknown,
            ShownView::NewGame(_) => Screen::NewGame,
            ShownView::Countdown(_) => Screen::Countdown,
        }
    }
}

/// The exit code of a splash process, and the game that it saves: the id screen
/// cancels and saves nothing, and the countdown saves nothing either.
pub open spec fn splash_result(appid: Seq<char>, shown: ShownView) -> (i32, Option<GameConfigView>) {
    match shown {
        ShownView::Unknown => (SPLASH_CANCEL, None),
        ShownView::NewGame(c) => wizard_result(appid, c),
        ShownView::Countdown(a) => (splash_code(a), None),
    }
}

/// What a splash process comes to: the exit code, and the game to save.
pub fn finish_splash(appid: &str, shown: Shown) -> (r: (i32, Option<GameConfig>))
    ensures
        (r.0, r.1.deep_view()) == splash_result(appid@, shown.deep_view()),
{
    match shown {
        Shown::Unknown => (SPLASH_CANCEL, None),
        Shown::NewGame(choice) => finish_wizard(appid, choice),
        Shown::Countdown(action) => (code_for_action(action), None),
    }
}

/// The launch goes on behind the editor.
pub open spec fn goes_on(started: bool, code: Option<i32>) -> bool {
    !started || code == Some(0i32)
}

/// Whether the launch goes on behind the editor: where the editor could not be
/// started, or ended with success. One that a signal ended has no code.
pub fn launches_after_editor(started: bool, code: Option<i32>) -> (b: bool)
    ensures
        b == goes_on(started, code),
{
    !started || match code {
        Some(c) => c == 0,
        None => false,
    }
}

/// How long the splash is shown for a game.
pub open spec fn timeout_for(game: GameConfigView, general: GeneralConfigView) -> u64 {
    match game.config.general.splash_timeout_secs {
        Some(t) => t,
        None => general.splash_timeout_secs,
    }
}

/// The time that the splash is shown: the game's own, or the general one.
pub fn splash_timeout(game: &GameConfig, general: &GeneralConfig) -> (r: u64)
    ensures
        r == timeout_for(game.deep_view(), general.deep_view()),
{
    match game.config.general.splash_timeout_secs {
        Some(t) => t,
        None => general.splash_timeout_secs,
    }
}

// ---- The name of a new game ------------------------------------------------

/// Whether a game's name can be looked up at Steam: its id is a number.
pub fn is_steam_id(appid: &str) -> (b: bool)
    ensures
        b == all_digits(appid@),
{
    let chars = chars_of(appid);
    let mut i: usize = 0;
    while i < chars.len()
        invariant
            chars@ == appid@,
            i <= chars@.len(),
            forall|j: int| 0 <= j < i ==> is_digit(#[trigger] appid@[j]),
        decreases chars@.len() - i,
    {
        if !('0' <= chars[i] && chars[i] <= '9') {
            assert(!is_digit(appid@[i as int]));
            return false;
        }
        i += 1;
    }
    true
}

/// A guess at the name of a new game: what Steam says for a numeric id, else the
/// install folder, else nothing.
pub open spec fn guess(
    appid: Seq<char>,
    fetched: Option<Seq<char>>,
    folder: Option<Seq<char>>,
) -> Seq<char> {
    match fetched {
        Some(name) => if all_digits(appid) {
            name
        } else {
            match folder {
                Some(f) => f,
                None => seq![],
            }
        },
        None => match folder {
            Some(f) => f,
            None => seq![],
        },
    }
}

/// A guess at the name of a new game.
pub fn name_guess(appid: &str, fetched: Option<String>, folder: &Option<String>) -> (r: String)
    ensures
        r@ == guess(appid@, fetched.deep_view(), folder.deep_view()),
{
    if let Some(name) = fetched {
        if is_steam_id(appid) {
            return name;
        }
    }
    match folder {
        Some(f) => f.clone(),
        None => {
            let none = String::new();
            assert(none@ =~= seq![]);
            none
        },
    }
}

/// The member of an object under a key; the last one where there are several.
pub open spec fn member(v: ValueView, key: Seq<char>) -> Option<ValueView> {
    match v {
        ValueView::Object(o) => member_in(o, key),
        _ => None,
    }
}

/// The last entry under a key.
pub open spec fn member_in(o: Seq<(Seq<char>, ValueView)>, key: Seq<char>) -> Option<ValueView>
    decreases o.len(),
{
    if o.len() == 0 {
        None
    } else if o.last().0 == key {
        Some(o.last().1)
    } else {
        member_in(o.drop_last(), key)
    }
}

fn get<'a>(v: &'a Json, key: &str) -> (r: Option<&'a Json>)
    ensures
        r.deep_view() == member(v.deep_view(), key@),
{
    match v {
        Json::Object(o) => {
            let ghost d = v.deep_view()->Object_0;
            let mut n: usize = o.len();
            assert(d.take(n as int) =~= d);
            while n > 0
                invariant
                    d.len() == o@.len(),
                    forall|i: int|
                        0 <= i < o@.len() ==> (#[trigger] d[i]).0 == o@[i].0@ && d[i].1
                            == o@[i].1.deep_view(),
                    n <= o@.len(),
                    v.deep_view() == ValueView::Object(d),
                    member_in(d, key@) == member_in(d.take(n as int), key@),
                decreases n,
            {
                assert(d.take(n as int).drop_last() =~= d.take(n - 1));
                assert(d.take(n as int).last() == d[n - 1]);
                if same_text(o[n - 1].0.as_str(), key) {
                    return Some(&o[n - 1].1);
                }
                n -= 1;
            }
            None
        },
        _ => None,
    }
}

/// The name in an answer of the Steam store: the entry of the id says that it
/// succeeded, and its data holds a name that is not empty.
pub open spec fn name_in(answer: ValueView, appid: Seq<char>) -> Option<Seq<char>> {
    match member(answer, appid) {
        None => None,
        Some(entry) => if member(entry, "success"@) != Some(ValueView::Bool(true)) {
            None
        } else {
            match member(entry, "data"@) {
                None => None,
                Some(data) => match member(data, "name"@) {
                    Some(ValueView::String(name)) => if name.len() > 0 {
                        Some(name)
                    } else {
                        None
                    },
                    _ => None,
                },
            }
        },
    }
}

/// The name in an answer of the Steam store.
pub fn steam_name(answer: &Json, appid: &str) -> (r: Option<String>)
    ensures
        r.deep_view() == name_in(answer.deep_view(), appid@),
{
    let entry = match get(answer, appid) {
        Some(e) => e,
        None => {
            return None;
        },
    };
    match get(entry, "success") {
        Some(Json::Bool(true)) => {},
        _ => {
            return None;
        },
    }
    let data = match get(entry, "data") {
        Some(d) => d,
        None => {
            return None;
        },
    };
    match get(data, "name") {
        Some(Json::String(name)) => {
            if chars_of(name.as_str()).len() > 0 {
                Some(name.clone())
            } else {
                None
            }
        },
        _ => None,
    }
}

/// The name in an answer of the Steam store, as it was received; nothing where the
/// answer is no JSON.
pub fn steam_name_in(answer: &[u8], appid: &str) -> (r: Option<String>)
    ensures
        r.deep_view() == match json_parsed(answer@) {
            Some(v) => name_in(v, appid@),
            None => None,
        },
{
    match parse_json(answer) {
        Some(v) => steam_name(&v, appid),
        None => None,
    }
}

/// The address for a game in the Steam store.
pub open spec fn store_address(appid: Seq<char>) -> Seq<char> {
    "https://store.steampowered.com/api/appdetails?appids="@ + appid + "&filters=basic"@
}

/// The address at which the Steam store tells the name of a game.
pub fn store_url(appid: &str) -> (r: String)
    ensures
        r@ == store_address(appid@),
{
    let mut r = "https://store.steampowered.com/api/appdetails?appids=".to_owned();
    r.append(appid);
    r.append("&filters=basic");
    r
}

// ---- Pinned profiles -------------------------------------------------------

/// A pinned profile: its slot and its name.
#[derive(Debug, PartialEq, Eq)]
pub struct Pin {
    pub slot: u8,
    pub name: String,
}

impl DeepView for Pin {
    type V = (u8, Seq<char>);

    open spec fn deep_view(&self) -> (u8, Seq<char>) {
        (self.slot, self.name@)
    }
}

impl Ordered for Pin {
    /// By slot.
    open spec fn le(a: (u8, Seq<char>), b: (u8, Seq<char>)) -> bool {
        a.0 <= b.0
    }

    fn at_most(&self, other: &Self) -> (b: bool) {
        self.slot <= other.slot
    }
}

/// The profiles that are pinned, in order.
pub open spec fn pinned(profiles: Seq<(Seq<char>, Option<u8>)>) -> Seq<(u8, Seq<char>)>
    decreases profiles.len(),
{
    if profiles.len() == 0 {
        seq![]
    } else {
        match profiles.last().1 {
            Some(slot) => pinned(profiles.drop_last()).push((slot, profiles.last().0)),
            None => pinned(profiles.drop_last()),
        }
    }
}

/// The first ten.
pub open spec fn first_ten<T>(s: Seq<T>) -> Seq<T> {
    if s.len() <= 10 {
        s
    } else {
        s.take(10)
    }
}

/// The pinned profiles with their slots, in order.
pub open spec fn pins_listed(profiles: Seq<(Seq<char>, Option<u8>)>) -> Seq<(u8, Seq<char>)> {
    first_ten(sorted(pinned(profiles), order::<Pin>()))
}

/// The pinned profiles by slot, ten at most; those of one slot keep their order.
pub fn pinned_profiles(profiles: &Vec<(String, Option<u8>)>) -> (r: Vec<(u8, String)>)
    ensures
        r.deep_view() == pins_listed(profiles.deep_view()),
{
    let mut pins: Vec<Pin> = Vec::new();
    let ghost d = profiles.deep_view();
    let mut i: usize = 0;
    assert(pins.deep_view() =~= pinned(d.take(0)));
    while i < profiles.len()
        invariant
            d == profiles.deep_view(),
            i <= profiles@.len(),
            pins.deep_view() == pinned(d.take(i as int)),
        decreases profiles@.len() - i,
    {
        assert(d.take(i + 1).drop_last() =~= d.take(i as int));
        assert(d.take(i + 1).last() == profiles@[i as int].deep_view());
        if let Some(slot) = profiles[i].1 {
            let ghost before = pins.deep_view();
            let name = profiles[i].0.clone();
            pins.push(Pin { slot, name });
            assert(pins.deep_view() =~= before.push((slot, name@)));
        }
        i += 1;
    }
    assert(d.take(d.len() as int) =~= d);
    let by_slot = sort(pins);
    let ghost s = by_slot.deep_view();
    let mut out: Vec<(u8, String)> = Vec::new();
    let mut j: usize = 0;
    assert(out.deep_view() =~= s.take(0));
    while j < by_slot.len() && j < 10
        invariant
            s == by_slot.deep_view(),
            j <= by_slot@.len(),
            j <= 10,
            out.deep_view() == s.take(j as int),
        decreases by_slot@.len() - j,
    {
        let ghost before = out.deep_view();
        let pair = (by_slot[j].slot, by_slot[j].name.clone());
        assert(pair.deep_view() == s[j as int]);
        out.push(pair);
        assert(out.deep_view() =~= before.push(s[j as int]));
        j += 1;
        assert(out.deep_view() =~= s.take(j as int));
    }
    assert(out.deep_view() =~= first_ten(s));
    out
}

// ---- Laws ------------------------------------------------------------------

/// The launcher does what was chosen on the splash: each choice comes back from
/// its exit code, also as the low bits that a process ends with.
pub proof fn law_choices_come_back(a: SplashAction)
    ensures
        after_code(splash_code(a)) == match a {
            SplashAction::Launch => AfterSplash::Launch,
            SplashAction::Cancel => AfterSplash::Cancel,
            SplashAction::Edit => AfterSplash::Edit,
        },
        status_of(splash_code(a)) == splash_code(a),
{
}

/// A game is saved exactly where the wizard was not cancelled.
pub proof fn law_wizard_saves_unless_cancelled(appid: Seq<char>, c: ChoiceView)
    ensures
        wizard_result(appid, c).1 is None <==> c is Cancel,
        wizard_result(appid, c).0 == SPLASH_CANCEL <==> c is Cancel,
{
}

/// A game without an id is neither launched nor saved: its screen ends with the
/// code that cancels the launch.
pub proof fn law_unknown_games_stop(appid: Seq<char>, configured: bool, shown: ShownView)
    requires
        appid == "unknown"@,
        !configured,
        shown.screen() == screen_of(appid, configured),
    ensures
        splash_result(appid, shown) == (SPLASH_CANCEL, None::<GameConfigView>),
        after_code(splash_result(appid, shown).0) == AfterSplash::Cancel,
{
}

/// Only a game that is not configured yet is saved.
pub proof fn law_configured_games_are_not_saved(
    appid: Seq<char>,
    configured: bool,
    shown: ShownView,
)
    requires
        shown.screen() == screen_of(appid, configured),
    ensures
        splash_result(appid, shown).1 is Some ==> !configured && appid != "unknown"@,
{
}

/// Pinned profiles stand by slot, and none of a lower slot is left out for one of
/// a higher.
pub proof fn law_pins_are_by_slot(profiles: Seq<(Seq<char>, Option<u8>)>)
    ensures
        ({
            let all = sorted(pinned(profiles), order::<Pin>());
            &&& crate::sorting::in_order(all, order::<Pin>())
            &&& all.to_multiset() == pinned(profiles).to_multiset()
            &&& first_ten(all).len() <= 10
            &&& begins(all, first_ten(all))
        }),
{
    let le = order::<Pin>();
    assert(crate::sorting::total(le));
    crate::sorting::law_sorted(pinned(profiles), le);
    let all = sorted(pinned(profiles), le);
    assert(all.take(all.len() as int) =~= all);
}

} // verus!
