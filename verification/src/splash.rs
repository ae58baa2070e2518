//! The launch splash and the new-game screens: what their keys and buttons do.
//!
//! The countdown splash has three keys: `Q` cancel, `W` launch now, `E` edit; it
//! times out to launch. A game that is not configured gets a wizard (name, then
//! profile, then confirm), and one without an id a screen that helps to set one.

use crate::data::Duplicate;
use crate::text::{
    alnum, chars_of, contains_text, is_alnum, is_white, text_of, trim, trimmed, white,
};
use vstd::prelude::*;

verus! {

/// What was chosen on the splash.
#[derive(Debug, Clone, Copy, PartialEq, Eq, Structural)]
pub enum SplashAction {
    Launch,
    Cancel,
    Edit,
}

/// The keys that were pressed in a frame.
#[derive(Debug)]
pub struct Keys {
    pub escape: bool,
    pub enter: bool,
    pub q: bool,
    pub w: bool,
    pub e: bool,
    /// The digit keys, in ascending order.
    pub digits: Vec<u8>,
}

// ---- Countdown -------------------------------------------------------------

/// There is no splash to show.
pub open spec fn no_splash(has_display: bool, timeout_secs: u64) -> bool {
    !has_display || timeout_secs == 0
}

/// The splash is skipped: there is no display, or no time to show it.
pub fn skips_splash(has_display: bool, timeout_secs: u64) -> (b: bool)
    ensures
        b == no_splash(has_display, timeout_secs),
{
    !has_display || timeout_secs == 0
}

/// What the keys of a frame choose: cancel goes before launch, launch before
/// edit.
pub open spec fn key_action(k: Keys) -> Option<SplashAction> {
    if k.q || k.escape {
        Some(SplashAction::Cancel)
    } else if k.w || k.enter {
        Some(SplashAction::Launch)
    } else if k.e {
        Some(SplashAction::Edit)
    } else {
        None
    }
}

/// What the keys of a frame choose.
pub fn splash_keys(k: &Keys) -> (r: Option<SplashAction>)
    ensures
        r == key_action(*k),
{
    if k.q || k.escape {
        Some(SplashAction::Cancel)
    } else if k.w || k.enter {
        Some(SplashAction::Launch)
    } else if k.e {
        Some(SplashAction::Edit)
    } else {
        None
    }
}

/// What the button at a position of the row does.
pub open spec fn button_action(b: u8) -> SplashAction {
    if b == 0 {
        SplashAction::Cancel
    } else if b == 1 {
        SplashAction::Launch
    } else {
        SplashAction::Edit
    }
}

/// Maps a button of the `[Q] [W] [E]` row to its action.
pub fn qwe_action(b: u8) -> (r: SplashAction)
    ensures
        r == button_action(b),
{
    match b {
        0 => SplashAction::Cancel,
        1 => SplashAction::Launch,
        _ => SplashAction::Edit,
    }
}

/// Nanoseconds until the splash times out.
pub open spec fn left_of(timeout_secs: u64, elapsed_nanos: u128) -> int {
    if timeout_secs * 1_000_000_000 > elapsed_nanos {
        timeout_secs * 1_000_000_000 - elapsed_nanos
    } else {
        0
    }
}

/// Nanoseconds until the splash times out.
pub fn remaining_nanos(timeout_secs: u64, elapsed_nanos: u128) -> (r: u128)
    ensures
        r == left_of(timeout_secs, elapsed_nanos),
{
    let total: u128 = (timeout_secs as u128) * 1_000_000_000u128;
    if total > elapsed_nanos {
        total - elapsed_nanos
    } else {
        0
    }
}

/// What a frame of the countdown comes to.
pub open spec fn frame_action(k: Keys, timeout_secs: u64, elapsed_nanos: u128) -> Option<
    SplashAction,
> {
    match key_action(k) {
        Some(action) => Some(action),
        None => if left_of(timeout_secs, elapsed_nanos) == 0 {
            Some(SplashAction::Launch)
        } else {
            None
        },
    }
}

/// What a frame of the countdown comes to before anything is drawn: the keys
/// decide, and the timeout launches.
pub fn countdown(k: &Keys, timeout_secs: u64, elapsed_nanos: u128) -> (r: Option<SplashAction>)
    ensures
        r == frame_action(*k, timeout_secs, elapsed_nanos),
{
    let pending = splash_keys(k);
    if pending.is_some() {
        return pending;
    }
    if remaining_nanos(timeout_secs, elapsed_nanos) == 0 {
        return Some(SplashAction::Launch);
    }
    None
}

// ---- New-game wizard -------------------------------------------------------

/// The choice made in the new-game wizard.
#[derive(Debug, PartialEq, Eq)]
pub enum NewGameChoice {
    Cancel,
    Launch { name: String, profile: Option<String> },
    Edit { name: String, profile: Option<String> },
}

/// A [`NewGameChoice`] as contracts speak of it.
#[verifier::ext_equal]
pub enum ChoiceView {
    Cancel,
    Launch { name: Seq<char>, profile: Option<Seq<char>> },
    Edit { name: Seq<char>, profile: Option<Seq<char>> },
}

impl DeepView for NewGameChoice {
    type V = ChoiceView;

    open spec fn deep_view(&self) -> ChoiceView {
        match self {
            NewGameChoice::Cancel => ChoiceView::Cancel,
            NewGameChoice::Launch { name, profile } => ChoiceView::Launch {
                name: name@,
                profile: profile.deep_view(),
            },
            NewGameChoice::Edit { name, profile } => ChoiceView::Edit {
                name: name@,
                profile: profile.deep_view(),
            },
        }
    }
}

/// Where the wizard stands: name, then profile, then confirm.
#[derive(Debug, PartialEq, Eq)]
pub enum NewState {
    Naming,
    Choosing,
    /// The chosen profile.
    Confirm(Option<String>),
}

/// A [`NewState`] as contracts speak of it.
#[verifier::ext_equal]
pub enum StateView {
    Naming,
    Choosing,
    Confirm(Option<Seq<char>>),
}

impl DeepView for NewState {
    type V = StateView;

    open spec fn deep_view(&self) -> StateView {
        match self {
            NewState::Naming => StateView::Naming,
            NewState::Choosing => StateView::Choosing,
            NewState::Confirm(profile) => StateView::Confirm(profile.deep_view()),
        }
    }
}

/// The new-game wizard.
#[derive(Debug)]
pub struct NewGameApp {
    pub appid: String,
    /// The pinned profiles: slot and name.
    pub pins: Vec<(u8, String)>,
    pub default_profile: Option<String>,
    /// The name as it is being typed.
    pub name_buf: String,
    /// The name field takes the focus when it is next drawn.
    pub focus_name: bool,
    pub state: NewState,
}

/// A [`NewGameApp`] as contracts speak of it.
#[verifier::ext_equal]
pub struct WizardView {
    pub appid: Seq<char>,
    pub pins: Seq<(u8, Seq<char>)>,
    pub default_profile: Option<Seq<char>>,
    pub name_buf: Seq<char>,
    pub focus_name: bool,
    pub state: StateView,
}

impl DeepView for NewGameApp {
    type V = WizardView;

    open spec fn deep_view(&self) -> WizardView {
        WizardView {
            appid: self.appid@,
            pins: self.pins.deep_view(),
            default_profile: self.default_profile.deep_view(),
            name_buf: self.name_buf@,
            focus_name: self.focus_name,
            state: self.state.deep_view(),
        }
    }
}

/// The first profile that is pinned to a slot.
pub open spec fn pinned_at(pins: Seq<(u8, Seq<char>)>, slot: u8) -> Option<Seq<char>>
    decreases pins.len(),
{
    if pins.len() == 0 {
        None
    } else if pins[0].0 == slot {
        Some(pins[0].1)
    } else {
        pinned_at(pins.drop_first(), slot)
    }
}

/// The slot that a digit key stands for: `0` is the tenth.
pub open spec fn slot_of(digit: u8) -> u8 {
    if digit == 0 {
        10
    } else {
        digit
    }
}

/// The profile that digit keys pick: the last of them that has one.
pub open spec fn picked_by(pins: Seq<(u8, Seq<char>)>, digits: Seq<u8>) -> Option<Seq<char>>
    decreases digits.len(),
{
    if digits.len() == 0 {
        None
    } else {
        match pinned_at(pins, slot_of(digits.last())) {
            Some(name) => Some(name),
            None => picked_by(pins, digits.drop_last()),
        }
    }
}

/// What the keys of a frame ask of the wizard.
#[derive(Debug, Clone, Copy, PartialEq, Eq, Structural)]
pub struct Intents {
    pub cancel: bool,
    pub confirm_name: bool,
    /// A button of the confirm row: 0 cancel, 1 launch, 2 edit.
    pub qwe: Option<u8>,
}

/// What the keys of a frame ask for, and where the wizard stands after them.
pub open spec fn wizard_keys(w: WizardView, k: Keys) -> (Intents, StateView) {
    let idle = Intents { cancel: false, confirm_name: false, qwe: None };
    match w.state {
        StateView::Naming => (
            Intents { cancel: k.escape, confirm_name: !k.escape && k.enter, ..idle },
            w.state,
        ),
        StateView::Choosing => if k.q || k.escape {
            (Intents { cancel: true, ..idle }, w.state)
        } else if k.w {
            (idle, StateView::Confirm(w.default_profile))
        } else {
            (
                idle,
                match picked_by(w.pins, k.digits@) {
                    Some(name) => StateView::Confirm(Some(name)),
                    None => w.state,
                },
            )
        },
        StateView::Confirm(_) => (
            if k.q || k.escape {
                Intents { cancel: true, ..idle }
            } else if k.w || k.enter {
                Intents { qwe: Some(1), ..idle }
            } else if k.e {
                Intents { qwe: Some(2), ..idle }
            } else {
                idle
            },
            w.state,
        ),
    }
}

/// The wizard once a text stands in the name field, which is there in the naming step.
pub open spec fn name_typed(w: WizardView, text: Seq<char>) -> WizardView {
    if w.state is Naming {
        WizardView { name_buf: text, ..w }
    } else {
        w
    }
}

/// What was clicked in a frame.
#[derive(Debug)]
pub struct Clicks {
    pub cancel: bool,
    pub confirm: bool,
    pub use_default: bool,
    pub card: Option<String>,
    pub qwe: Option<u8>,
}

/// [`Clicks`] as contracts speak of them.
#[verifier::ext_equal]
pub struct ClicksView {
    pub cancel: bool,
    pub confirm: bool,
    pub use_default: bool,
    pub card: Option<Seq<char>>,
    pub qwe: Option<u8>,
}

impl DeepView for Clicks {
    type V = ClicksView;

    open spec fn deep_view(&self) -> ClicksView {
        ClicksView {
            cancel: self.cancel,
            confirm: self.confirm,
            use_default: self.use_default,
            card: self.card.deep_view(),
            qwe: self.qwe,
        }
    }
}

/// Where the wizard stands once a frame has been drawn: a name that is not blank
/// leads on to the profiles, and a profile to the confirmation. There are no profiles
/// to click before there is a name.
pub open spec fn wizard_state(w: WizardView, i: Intents, c: ClicksView) -> StateView {
    let naming = w.state is Naming;
    if c.use_default && !naming {
        StateView::Confirm(w.default_profile)
    } else {
        match c.card {
            Some(name) if !naming => StateView::Confirm(Some(name)),
            _ => if (i.confirm_name || c.confirm) && trimmed(w.name_buf).len() > 0 {
                StateView::Choosing
            } else {
                w.state
            },
        }
    }
}

/// The wizard after a frame.
pub open spec fn wizard_after(w: WizardView, i: Intents, c: ClicksView) -> WizardView {
    WizardView {
        state: if i.cancel || c.cancel {
            w.state
        } else {
            wizard_state(w, i, c)
        },
        ..w
    }
}

/// What a button of the confirm row chooses.
pub open spec fn confirm_choice(b: u8, name: Seq<char>, profile: Option<Seq<char>>) -> ChoiceView {
    if b == 0 {
        ChoiceView::Cancel
    } else if b == 2 {
        ChoiceView::Edit { name, profile }
    } else {
        ChoiceView::Launch { name, profile }
    }
}

/// The choice that a frame comes to, if it does.
pub open spec fn wizard_choice(w: WizardView, i: Intents, c: ClicksView) -> Option<ChoiceView> {
    let qwe = match c.qwe {
        Some(b) => Some(b),
        None => i.qwe,
    };
    if i.cancel || c.cancel {
        Some(ChoiceView::Cancel)
    } else {
        match (qwe, wizard_state(w, i, c)) {
            (Some(b), StateView::Confirm(profile)) => Some(
                confirm_choice(b, trimmed(w.name_buf), profile),
            ),
            _ => None,
        }
    }
}

/// The keybind label of a slot: 1–9 as they are, 10 shown as `0`.
pub open spec fn keybind_of(id: u8) -> char {
    if id == 10 {
        '0'
    } else {
        ((48 + id) as u8) as char
    }
}

/// The keybind label of a slot: 1–9 as they are, 10 shown as `0`.
pub fn keybind_char(id: u8) -> (r: char)
    requires
        id <= 207,
    ensures
        r == keybind_of(id),
{
    if id == 10 {
        '0'
    } else {
        (48u8 + id) as char
    }
}

/// The wizard as it begins.
pub open spec fn wizard_begun(
    appid: Seq<char>,
    pins: Seq<(u8, Seq<char>)>,
    default_profile: Option<Seq<char>>,
    name_guess: Seq<char>,
) -> WizardView {
    WizardView {
        appid,
        pins,
        default_profile,
        name_buf: name_guess,
        focus_name: true,
        state: StateView::Naming,
    }
}

impl NewGameApp {
    /// The wizard as it begins, with a guess at the name.
    pub fn new(
        appid: &str,
        pins: &Vec<(u8, String)>,
        default_profile: Option<&str>,
        name_guess: &str,
    ) -> (r: Self)
        ensures
            r.deep_view() == wizard_begun(
                appid@,
                pins.deep_view(),
                default_profile.deep_view(),
                name_guess@,
            ),
    {
        NewGameApp {
            appid: appid.to_owned(),
            pins: pins.duplicate(),
            default_profile: match default_profile {
                Some(p) => Some(p.to_owned()),
                None => None,
            },
            name_buf: name_guess.to_owned(),
            focus_name: true,
            state: NewState::Naming,
        }
    }

    fn pinned(&self, slot: u8) -> (r: Option<String>)
        ensures
            r.deep_view() == pinned_at(self.deep_view().pins, slot),
    {
        let ghost d = self.pins.deep_view();
        let mut i: usize = 0;
        assert(d.skip(0) =~= d);
        while i < self.pins.len()
            invariant
                d == self.pins.deep_view(),
                i <= self.pins@.len(),
                pinned_at(d.skip(i as int), slot) == pinned_at(d, slot),
            decreases self.pins@.len() - i,
        {
            let ghost rest = d.skip(i as int);
            assert(rest[0] == self.pins@[i as int].deep_view());
            assert(rest.drop_first() =~= d.skip(i + 1));
            if self.pins[i].0 == slot {
                return Some(self.pins[i].1.clone());
            }
            i += 1;
        }
        None
    }

    fn picked(&self, digits: &Vec<u8>) -> (r: Option<String>)
        ensures
            r.deep_view() == picked_by(self.deep_view().pins, digits@),
    {
        let mut pick: Option<String> = None;
        let mut i: usize = 0;
        let ghost pins = self.deep_view().pins;
        assert(digits@.take(0).len() == 0);
        while i < digits.len()
            invariant
                pins == self.deep_view().pins,
                i <= digits@.len(),
                pick.deep_view() == picked_by(pins, digits@.take(i as int)),
            decreases digits@.len() - i,
        {
            assert(digits@.take(i + 1).drop_last() =~= digits@.take(i as int));
            let n = digits[i];
            let slot = if n == 0 {
                10u8
            } else {
                n
            };
            let found = self.pinned(slot);
            if found.is_some() {
                pick = found;
            }
            i += 1;
        }
        assert(digits@.take(digits@.len() as int) =~= digits@);
        pick
    }

    /// Takes in the keys of a frame, before anything is drawn. Where they ask to
    /// cancel, the wizard is over.
    pub fn take_keys(&mut self, k: &Keys) -> (r: Intents)
        ensures
            ({
                let (intents, state) = wizard_keys(old(self).deep_view(), *k);
                &&& r == intents
                &&& final(self).deep_view() == (WizardView { state, ..old(self).deep_view() })
            }),
    {
        let mut intents = Intents { cancel: false, confirm_name: false, qwe: None };
        let mut pick: Option<Option<String>> = None;
        match &self.state {
            NewState::Naming => {
                if k.escape {
                    intents.cancel = true;
                } else if k.enter {
                    intents.confirm_name = true;
                }
            },
            NewState::Choosing => {
                if k.q || k.escape {
                    intents.cancel = true;
                } else if k.w {
                    pick = Some(self.default_profile.duplicate());
                } else {
                    let found = self.picked(&k.digits);
                    if found.is_some() {
                        pick = Some(found);
                    }
                }
            },
            NewState::Confirm(_) => {
                if k.q || k.escape {
                    intents.cancel = true;
                } else if k.w || k.enter {
                    intents.qwe = Some(1);
                } else if k.e {
                    intents.qwe = Some(2);
                }
            },
        }
        if let Some(profile) = pick {
            self.state = NewState::Confirm(profile);
        }
        intents
    }

    /// Takes in the text of the name field. Past the naming step the name is fixed.
    pub fn enter_name(&mut self, text: &str)
        ensures
            final(self).deep_view() == name_typed(old(self).deep_view(), text@),
    {
        let naming = match &self.state {
            NewState::Naming => true,
            _ => false,
        };
        if naming {
            self.name_buf = text.to_owned();
        }
    }

    /// Takes in what was clicked in a frame that has been drawn, with what its
    /// keys asked for, and gives the choice that was made, if one was.
    pub fn take_clicks(&mut self, intents: Intents, clicks: &Clicks) -> (r: Option<NewGameChoice>)
        ensures
            r.deep_view() == wizard_choice(old(self).deep_view(), intents, clicks.deep_view()),
            final(self).deep_view() == wizard_after(
                old(self).deep_view(),
                intents,
                clicks.deep_view(),
            ),
    {
        if intents.cancel || clicks.cancel {
            return Some(NewGameChoice::Cancel);
        }
        let name = trim(self.name_buf.as_str());
        let naming = match &self.state {
            NewState::Naming => true,
            _ => false,
        };
        if (intents.confirm_name || clicks.confirm) && chars_of(name.as_str()).len() > 0 {
            self.state = NewState::Choosing;
        }
        if let Some(card) = &clicks.card {
            if !naming {
                self.state = NewState::Confirm(Some(card.clone()));
            }
        }
        if clicks.use_default && !naming {
            self.state = NewState::Confirm(self.default_profile.duplicate());
        }
        let qwe = match clicks.qwe {
            Some(b) => Some(b),
            None => intents.qwe,
        };
        if let Some(b) = qwe {
            if let NewState::Confirm(profile) = &self.state {
                let profile = profile.duplicate();
                let choice = match b {
                    0 => NewGameChoice::Cancel,
                    2 => NewGameChoice::Edit { name, profile },
                    _ => NewGameChoice::Launch { name, profile },
                };
                return Some(choice);
            }
        }
        None
    }
}

/// What the new-game wizard comes to where it cannot be shown.
pub open spec fn unshown_choice(name_guess: Seq<char>, default_profile: Option<Seq<char>>) -> ChoiceView {
    ChoiceView::Launch { name: name_guess, profile: default_profile }
}

/// What the new-game wizard comes to where there is no display: a launch with
/// the default profile.
pub fn choice_without_display(name_guess: &str, default_profile: Option<&str>) -> (r: NewGameChoice)
    ensures
        r.deep_view() == unshown_choice(name_guess@, default_profile.deep_view()),
{
    NewGameChoice::Launch {
        name: name_guess.to_owned(),
        profile: match default_profile {
            Some(p) => Some(p.to_owned()),
            None => None,
        },
    }
}

// ---- Cutting text to fit ---------------------------------------------------

/// `wide` says of every text what `truth` says.
pub open spec fn measures<F: Fn(&str) -> bool>(
    wide: F,
    truth: spec_fn(Seq<char>) -> bool,
) -> bool {
    forall|s: &str, b: bool| #[trigger] call_ensures(wide, (s,), b) ==> b == truth(s@)
}

/// The longest beginning of `text`, no longer than `n`, that is not too wide with
/// `..` behind it; the empty one where none is.
pub open spec fn cut(text: Seq<char>, n: int, truth: spec_fn(Seq<char>) -> bool) -> Seq<char>
    decreases n,
{
    if n <= 0 {
        text.take(0) + ".."@
    } else if truth(text.take(n) + ".."@) {
        cut(text, n - 1, truth)
    } else {
        text.take(n) + ".."@
    }
}

/// Cuts `text` with a trailing `..` until it is no longer too wide; one that fits
/// is kept.
pub fn fit_text<F: Fn(&str) -> bool>(text: &str, fits: bool, too_wide: &F) -> (r: String)
    requires
        forall|s: &str| #[trigger] call_requires(*too_wide, (s,)),
    ensures
        fits ==> r@ == text@,
        !fits ==> forall|truth: spec_fn(Seq<char>) -> bool| #[trigger]
            measures(*too_wide, truth) ==> r@ == cut(text@, text@.len() as int, truth),
{
    if fits {
        return text.to_owned();
    }
    let chars = chars_of(text);
    let mut n: usize = chars.len();
    while n > 0
        invariant
            forall|s: &str| #[trigger] call_requires(*too_wide, (s,)),
            chars@ == text@,
            !fits,
            n <= chars@.len(),
            forall|truth: spec_fn(Seq<char>) -> bool| #[trigger]
                measures(*too_wide, truth) ==> cut(text@, text@.len() as int, truth) == cut(
                    text@,
                    n as int,
                    truth,
                ),
        decreases n,
    {
        let mut s = text_of(&chars, 0, n);
        assert(s@ =~= text@.take(n as int));
        s.append("..");
        if !too_wide(s.as_str()) {
            return s;
        }
        n -= 1;
    }
    let r = "..".to_owned();
    assert(text@.take(0) + ".."@ =~= ".."@);
    r
}

// ---- Setting an id for a game that is not from Steam -----------------------

/// A character of an id.
pub open spec fn is_id_char(c: char) -> bool {
    is_alnum(c) || c == '_' || c == '-'
}

/// The characters of an id among `s`, white space as `_`.
pub open spec fn id_chars(s: Seq<char>) -> Seq<char>
    decreases s.len(),
{
    if s.len() == 0 {
        seq![]
    } else {
        let c = if is_white(s.last()) {
            '_'
        } else {
            s.last()
        };
        if is_id_char(c) {
            id_chars(s.drop_last()).push(c)
        } else {
            id_chars(s.drop_last())
        }
    }
}

/// An id made of a name.
pub open spec fn id_of_name(name: Seq<char>) -> Seq<char> {
    id_chars(trimmed(name))
}

/// Builds a safe id from a name: white space → `_`, keep `[A-Za-z0-9_-]`.
pub fn sanitize_appid(name: &str) -> (r: String)
    ensures
        r@ == id_of_name(name@),
{
    let text = trim(name);
    let chars = chars_of(text.as_str());
    let mut r = String::new();
    let mut i: usize = 0;
    assert(r@ =~= id_chars(chars@.take(0)));
    while i < chars.len()
        invariant
            i <= chars@.len(),
            r@ == id_chars(chars@.take(i as int)),
        decreases chars@.len() - i,
    {
        assert(chars@.take(i + 1).drop_last() =~= chars@.take(i as int));
        let c = if white(chars[i]) {
            '_'
        } else {
            chars[i]
        };
        if alnum(c) || c == '_' || c == '-' {
            r.push(c);
        }
        i += 1;
    }
    assert(chars@.take(chars@.len() as int) =~= chars@);
    r
}

/// The launch option that gives a game its id.
pub open spec fn launch_option(id: Seq<char>) -> Seq<char> {
    "RITZ_APPID="@ + id + " ritz %command%"@
}

/// The launch option as it is shown: with a stand-in where there is no id yet.
pub open spec fn shown_option(id: Seq<char>) -> Seq<char> {
    if id.len() == 0 {
        "RITZ_APPID=<name> ritz %command%"@
    } else {
        launch_option(id)
    }
}

fn option_text(id: &str) -> (r: String)
    ensures
        r@ == launch_option(id@),
{
    let mut r = "RITZ_APPID=".to_owned();
    r.append(id);
    r.append(" ritz %command%");
    r
}

/// The id is another game's.
pub open spec fn is_taken(existing: Seq<Seq<char>>, id: Seq<char>) -> bool {
    id.len() > 0 && existing.contains(id)
}

/// What is copied in a frame.
pub open spec fn option_copied(id: Seq<char>, copy: bool) -> Option<Seq<char>> {
    if copy && id.len() > 0 {
        Some(launch_option(id))
    } else {
        None
    }
}

/// The launch option that was copied is still the one that is shown.
pub open spec fn stays_copied(copied: bool, id: Seq<char>, edited: bool, copy: bool) -> bool {
    (copy && id.len() > 0) || (copied && !edited)
}

/// What the keys ask of the screen that helps to set an id: to close, and to copy.
pub open spec fn unknown_keys(k: Keys) -> (bool, bool) {
    (k.escape, !k.escape && k.enter)
}

/// The screen that helps to set an id.
#[derive(Debug)]
pub struct UnknownApp {
    /// The ids that are taken.
    pub existing: Vec<String>,
    pub name_buf: String,
    pub focus_name: bool,
    /// The launch option has been copied since the name last changed.
    pub copied: bool,
}

impl UnknownApp {
    /// The screen as it begins.
    pub fn new(existing: &Vec<String>) -> (r: Self)
        ensures
            r.existing.deep_view() == existing.deep_view(),
            r.name_buf@.len() == 0,
            r.focus_name,
            !r.copied,
    {
        UnknownApp {
            existing: existing.duplicate(),
            name_buf: String::new(),
            focus_name: true,
            copied: false,
        }
    }

    /// The id that the name makes.
    pub fn id(&self) -> (r: String)
        ensures
            r@ == id_of_name(self.name_buf@),
    {
        sanitize_appid(self.name_buf.as_str())
    }

    /// Whether an id is taken.
    pub fn conflict(&self, id: &str) -> (b: bool)
        ensures
            b == is_taken(self.existing.deep_view(), id@),
    {
        chars_of(id).len() > 0 && contains_text(&self.existing, id)
    }

    /// The warning for an id that is taken.
    pub fn warning(id: &str) -> (r: String)
        ensures
            r@ == "ID \""@ + id@ + "\" already exists — pick another name."@,
    {
        let mut r = "ID \"".to_owned();
        r.append(id);
        r.append("\" already exists — pick another name.");
        r
    }

    /// The launch option as it is shown.
    pub fn shown(id: &str) -> (r: String)
        ensures
            r@ == shown_option(id@),
    {
        if chars_of(id).len() == 0 {
            "RITZ_APPID=<name> ritz %command%".to_owned()
        } else {
            option_text(id)
        }
    }

    /// The label of the copy button.
    pub fn copy_label(&self) -> (r: &'static str)
        ensures
            r@ == if self.copied {
                "Copied!"@
            } else {
                "Copy (Enter)"@
            },
    {
        if self.copied {
            "Copied!"
        } else {
            "Copy (Enter)"
        }
    }

    /// What the keys of a frame ask for: to close, or else to copy.
    pub fn take_keys(k: &Keys) -> (r: (bool, bool))
        ensures
            r == unknown_keys(*k),
    {
        if k.escape {
            (true, false)
        } else {
            (false, k.enter)
        }
    }

    /// Takes in a frame that has been drawn: whether the name was edited, and
    /// whether a copy was asked for. Gives the text to copy; `id` is the id that
    /// the frame was drawn with.
    pub fn take_frame(&mut self, id: &str, edited: bool, copy: bool) -> (r: Option<String>)
        ensures
            r.deep_view() == option_copied(id@, copy),
            final(self).existing == old(self).existing,
            final(self).name_buf == old(self).name_buf,
            final(self).focus_name == old(self).focus_name,
            final(self).copied == stays_copied(old(self).copied, id@, edited, copy),
    {
        if edited {
            self.copied = false;
        }
        if copy && chars_of(id).len() > 0 {
            self.copied = true;
            return Some(option_text(id));
        }
        None
    }
}

/// A clipboard tool: the program and its arguments.
pub open spec fn clipboard_spec(wayland: bool) -> Seq<(Seq<char>, Seq<Seq<char>>)> {
    if wayland {
        seq![("wl-copy"@, seq![])]
    } else {
        seq![
            ("xclip"@, seq!["-selection"@, "clipboard"@]),
            ("xsel"@, seq!["--clipboard"@, "--input"@]),
        ]
    }
}

/// The clipboard tools to try, one after the other, until one starts.
pub fn clipboard_tools(wayland: bool) -> (r: Vec<(String, Vec<String>)>)
    ensures
        r.deep_view() == clipboard_spec(wayland),
{
    let mut out: Vec<(String, Vec<String>)> = Vec::new();
    if wayland {
        let args: Vec<String> = Vec::new();
        assert(args.deep_view() =~= seq![]);
        out.push(("wl-copy".to_owned(), args));
    } else {
        let mut args: Vec<String> = Vec::new();
        args.push("-selection".to_owned());
        args.push("clipboard".to_owned());
        assert(args.deep_view() =~= seq!["-selection"@, "clipboard"@]);
        out.push(("xclip".to_owned(), args));
        let mut more: Vec<String> = Vec::new();
        more.push("--clipboard".to_owned());
        more.push("--input".to_owned());
        assert(more.deep_view() =~= seq!["--clipboard"@, "--input"@]);
        out.push(("xsel".to_owned(), more));
    }
    assert(out.deep_view() =~= clipboard_spec(wayland));
    out
}

// ---- Laws ------------------------------------------------------------------

/// Past the naming step, the game has a name.
pub open spec fn named(w: WizardView) -> bool {
    w.state is Naming || trimmed(w.name_buf).len() > 0
}

/// The wizard never makes a game without a name: whatever is pressed, typed and clicked
/// in a frame, it only goes on from the naming step with a name, and keeps it from there
/// on; and a game is made from the confirmation alone, with the profile that is
/// confirmed.
pub proof fn law_new_games_have_names(w: WizardView, k: Keys, text: Seq<char>, c: ClicksView)
    requires
        named(w),
    ensures
        ({
            let (intents, state) = wizard_keys(w, k);
            let drawn = name_typed(WizardView { state, ..w }, text);
            let next = wizard_state(drawn, intents, c);
            &&& named(drawn)
            &&& named(WizardView { state: next, ..drawn })
            &&& wizard_choice(drawn, intents, c) matches Some(choice) ==> match choice {
                ChoiceView::Cancel => true,
                ChoiceView::Launch { name, profile } => name.len() > 0 && name == trimmed(
                    drawn.name_buf,
                ) && next == StateView::Confirm(profile),
                ChoiceView::Edit { name, profile } => name.len() > 0 && name == trimmed(
                    drawn.name_buf,
                ) && next == StateView::Confirm(profile),
            }
        }),
{
}

/// Cancelling always cancels, whatever else a frame holds.
pub proof fn law_cancel_cancels(w: WizardView, k: Keys, c: ClicksView)
    requires
        k.escape,
    ensures
        wizard_choice(
            WizardView { state: wizard_keys(w, k).1, ..w },
            wizard_keys(w, k).0,
            c,
        ) == Some(ChoiceView::Cancel),
        key_action(k) == Some(SplashAction::Cancel),
{
}

proof fn lemma_id_chars(s: Seq<char>)
    ensures
        forall|i: int| 0 <= i < id_chars(s).len() ==> is_id_char(#[trigger] id_chars(s)[i]),
    decreases s.len(),
{
    if s.len() > 0 {
        lemma_id_chars(s.drop_last());
        let init = id_chars(s.drop_last());
        let all = id_chars(s);
        assert forall|i: int| 0 <= i < all.len() implies is_id_char(#[trigger] all[i]) by {
            if i < init.len() {
                assert(all[i] == init[i]);
            }
        }
    }
}

proof fn lemma_id_kept(s: Seq<char>)
    requires
        forall|i: int| 0 <= i < s.len() ==> is_id_char(#[trigger] s[i]),
    ensures
        id_chars(s) == s,
        trimmed(s) == s,
    decreases s.len(),
{
    if s.len() > 0 {
        assert(is_id_char(s[0]));
        assert(is_id_char(s[s.len() - 1]));
        assert(!is_white(s[0]) && !is_white(s.last()));
        let init = s.drop_last();
        assert forall|i: int| 0 <= i < init.len() implies is_id_char(#[trigger] init[i]) by {
            assert(init[i] == s[i]);
        }
        lemma_id_kept(init);
        assert(id_chars(s) =~= s);
    }
}

/// An id is made of safe characters alone, and making an id of an id changes
/// nothing.
pub proof fn law_ids_are_safe(name: Seq<char>)
    ensures
        forall|i: int| 0 <= i < id_of_name(name).len() ==> is_id_char(#[trigger] id_of_name(name)[i]),
        id_of_name(id_of_name(name)) == id_of_name(name),
{
    lemma_id_chars(trimmed(name));
    lemma_id_kept(id_of_name(name));
}

/// What is cut fits, as long as anything at all does.
pub proof fn law_cut_fits(text: Seq<char>, n: int, truth: spec_fn(Seq<char>) -> bool)
    requires
        0 <= n <= text.len(),
        !truth(text.take(0) + ".."@),
    ensures
        !truth(cut(text, n, truth)),
    decreases n,
{
    if n > 0 {
        law_cut_fits(text, n - 1, truth);
    }
}

} // verus!
