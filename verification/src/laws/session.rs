//! How a launch goes, from the splash to the end of the game.

use vstd::prelude::*;

use crate::splash::{
    button_action, clipboard_spec, cut, frame_action, id_chars, id_of_name, is_id_char, is_taken,
    key_action, keybind_of, launch_option, left_of, name_typed, no_splash, option_copied, picked_by,
    pinned_at, shown_option, stays_copied, unknown_keys, unshown_choice, wizard_after, wizard_begun,
    wizard_choice, wizard_keys, wizard_state, ChoiceView, ClicksView, Intents, Keys, SplashAction,
    StateView, WizardView,
};
use crate::supervisor::{
    after, after_all, awaited, begun, exit_code_of, given, todo, todo_at, Ended, Supervision, Tick,
};
use crate::text::{is_white, trimmed};

verus! {

// ---- The splash ------------------------------------------------------------

/// Q and Escape cancel, W and Enter launch, E edits; where several are pressed,
/// cancelling goes before launching and launching before editing.
pub proof fn law_splash_keys(k: Keys)
    ensures
        k.q || k.escape <==> key_action(k) == Some(SplashAction::Cancel),
        !(k.q || k.escape) && (k.w || k.enter) <==> key_action(k) == Some(SplashAction::Launch),
        !(k.q || k.escape || k.w || k.enter) && k.e <==> key_action(k) == Some(SplashAction::Edit),
        !(k.q || k.escape || k.w || k.enter || k.e) <==> key_action(k) is None,
{
}

/// The buttons cancel, launch and edit, in this order.
pub proof fn law_splash_buttons()
    ensures
        button_action(0) == SplashAction::Cancel,
        button_action(1) == SplashAction::Launch,
        button_action(2) == SplashAction::Edit,
{
}

/// The time that is left and the time that has passed make up the timeout, until
/// nothing is left.
pub proof fn law_countdown(timeout_secs: u64, elapsed_nanos: u128)
    ensures
        elapsed_nanos <= timeout_secs * 1_000_000_000 ==> left_of(timeout_secs, elapsed_nanos)
            + elapsed_nanos == timeout_secs * 1_000_000_000,
        elapsed_nanos >= timeout_secs * 1_000_000_000 <==> left_of(timeout_secs, elapsed_nanos)
            == 0,
{
}

/// Without a display, and without time to show it, there is no splash.
pub proof fn law_no_splash(has_display: bool, timeout_secs: u64)
    ensures
        no_splash(false, timeout_secs),
        no_splash(has_display, 0),
        timeout_secs > 0 ==> !no_splash(true, timeout_secs),
{
}

/// A key decides at once; without one the game is launched when the time is up,
/// and not before.
pub proof fn law_frames(k: Keys, timeout_secs: u64, elapsed_nanos: u128)
    ensures
        k.q || k.escape ==> frame_action(k, timeout_secs, elapsed_nanos) == Some(
            SplashAction::Cancel,
        ),
        !(k.q || k.escape) && (k.w || k.enter) ==> frame_action(k, timeout_secs, elapsed_nanos)
            == Some(SplashAction::Launch),
        !(k.q || k.escape || k.w || k.enter) && k.e ==> frame_action(
            k,
            timeout_secs,
            elapsed_nanos,
        ) == Some(SplashAction::Edit),
        !(k.q || k.escape || k.w || k.enter || k.e) ==> frame_action(
            k,
            timeout_secs,
            elapsed_nanos,
        ) == (if elapsed_nanos < timeout_secs * 1_000_000_000 {
            None
        } else {
            Some(SplashAction::Launch)
        }),
{
}

// ---- The wizard ------------------------------------------------------------

/// A profile that is pinned to a slot, the first for it, is found there; an empty
/// slot gives none.
pub proof fn law_pinned(pins: Seq<(u8, Seq<char>)>, i: int, slot: u8)
    ensures
        0 <= i < pins.len() && (forall|j: int| 0 <= j < i ==> (#[trigger] pins[j]).0 != pins[i].0)
            ==> pinned_at(pins, pins[i].0) == Some(pins[i].1),
        (forall|j: int| 0 <= j < pins.len() ==> (#[trigger] pins[j]).0 != slot) ==> pinned_at(
            pins,
            slot,
        ) is None,
    decreases pins.len(),
{
    if pins.len() > 0 {
        let rest = pins.drop_first();
        law_pinned(rest, i - 1, slot);
        if 0 < i < pins.len() && (forall|j: int|
            0 <= j < i ==> (#[trigger] pins[j]).0 != pins[i].0) {
            assert(rest[i - 1] == pins[i]);
            assert(pins[0].0 != pins[i].0);
            assert forall|j: int| 0 <= j < i - 1 implies (#[trigger] rest[j]).0 != rest[i - 1].0 by {
                assert(rest[j] == pins[j + 1]);
            }
        }
        if forall|j: int| 0 <= j < pins.len() ==> (#[trigger] pins[j]).0 != slot {
            assert(pins[0].0 != slot);
            assert forall|j: int| 0 <= j < rest.len() implies (#[trigger] rest[j]).0 != slot by {
                assert(rest[j] == pins[j + 1]);
            }
        }
    }
}

/// A digit key picks the profile that is pinned to its slot, the zero key that of
/// the tenth; without a digit nothing is picked.
pub proof fn law_digit_picks(pins: Seq<(u8, Seq<char>)>, digit: u8)
    ensures
        picked_by(pins, seq![]) is None,
        digit > 0 ==> picked_by(pins, seq![digit]) == pinned_at(pins, digit),
        picked_by(pins, seq![0u8]) == pinned_at(pins, 10),
{
    reveal_with_fuel(picked_by, 2);
    assert(seq![digit].drop_last() =~= seq![]);
    assert(seq![0u8].drop_last() =~= seq![]);
}

/// The last of the pressed digits whose slot is taken decides.
pub proof fn law_last_digit_decides(pins: Seq<(u8, Seq<char>)>, digits: Seq<u8>, digit: u8)
    ensures
        picked_by(pins, digits.push(digit)) == match picked_by(pins, seq![digit]) {
            Some(name) => Some(name),
            None => picked_by(pins, digits),
        },
{
    reveal_with_fuel(picked_by, 2);
    assert(seq![digit].drop_last() =~= seq![]);
    assert(digits.push(digit).drop_last() =~= digits);
}

/// While a name is typed, Escape cancels and Enter confirms; every other key is
/// part of the name.
pub proof fn law_naming_keys(w: WizardView, k: Keys)
    requires
        w.state == StateView::Naming,
    ensures
        ({
            let (i, s) = wizard_keys(w, k);
            &&& s == StateView::Naming
            &&& i.cancel == k.escape
            &&& i.confirm_name == (k.enter && !k.escape)
            &&& i.qwe is None
        }),
{
}

/// While a profile is chosen, Q and Escape cancel, W takes the default profile,
/// and a digit the one that is pinned to it.
pub proof fn law_choosing_keys(w: WizardView, k: Keys)
    requires
        w.state == StateView::Choosing,
    ensures
        ({
            let (i, s) = wizard_keys(w, k);
            &&& i.cancel == (k.q || k.escape)
            &&& !i.confirm_name && i.qwe is None
            &&& k.q || k.escape ==> s == StateView::Choosing
            &&& !k.q && !k.escape && k.w ==> s == StateView::Confirm(w.default_profile)
            &&& !k.q && !k.escape && !k.w ==> (picked_by(w.pins, k.digits@) matches Some(name) ==> s
                == StateView::Confirm(Some(name)))
            &&& !k.q && !k.escape && !k.w && picked_by(w.pins, k.digits@) is None ==> s
                == StateView::Choosing
        }),
{
}

/// While the choice is confirmed, the keys do what they do on the splash.
pub proof fn law_confirming_keys(w: WizardView, k: Keys)
    requires
        w.state is Confirm,
    ensures
        ({
            let (i, s) = wizard_keys(w, k);
            &&& s == w.state
            &&& !i.confirm_name
            &&& i.cancel <==> key_action(k) == Some(SplashAction::Cancel)
            &&& i.qwe == Some(1u8) <==> key_action(k) == Some(SplashAction::Launch)
            &&& i.qwe == Some(2u8) <==> key_action(k) == Some(SplashAction::Edit)
        }),
{
}

/// What is clicked moves the wizard on: a name that is not blank leads to the
/// profiles, and a profile (the default one or that of a card) to the
/// confirmation; a blank name does not.
pub proof fn law_wizard_moves(w: WizardView, i: Intents, c: ClicksView)
    ensures
        w.state is Naming && (i.confirm_name || c.confirm) && trimmed(w.name_buf).len() > 0
            ==> wizard_state(w, i, c) == StateView::Choosing,
        w.state is Naming && !(i.confirm_name || c.confirm) ==> wizard_state(w, i, c)
            == StateView::Naming,
        w.state is Naming && trimmed(w.name_buf).len() == 0 ==> wizard_state(w, i, c)
            == StateView::Naming,
        !(w.state is Naming) && c.use_default ==> wizard_state(w, i, c) == StateView::Confirm(
            w.default_profile,
        ),
        !(w.state is Naming) && !c.use_default ==> (c.card matches Some(name) ==> wizard_state(
            w,
            i,
            c,
        ) == StateView::Confirm(Some(name))),
        !(w.state is Naming) && !c.use_default && c.card is None && !i.confirm_name && !c.confirm
            ==> wizard_state(w, i, c) == w.state,
{
}

/// The wizard ends where it is cancelled, or where the choice is confirmed: to
/// launch or to edit, under the trimmed name and with the chosen profile. A click
/// goes before a key.
pub proof fn law_wizard_ends(w: WizardView, i: Intents, c: ClicksView)
    ensures
        i.cancel || c.cancel ==> wizard_choice(w, i, c) == Some(ChoiceView::Cancel),
        !i.cancel && !c.cancel ==> (wizard_state(w, i, c) matches StateView::Confirm(profile) ==> {
            let b = if c.qwe is Some {
                c.qwe
            } else {
                i.qwe
            };
            &&& b is None ==> wizard_choice(w, i, c) is None
            &&& b == Some(0u8) ==> wizard_choice(w, i, c) == Some(ChoiceView::Cancel)
            &&& b == Some(1u8) ==> wizard_choice(w, i, c) == Some(
                ChoiceView::Launch { name: trimmed(w.name_buf), profile },
            )
            &&& b == Some(2u8) ==> wizard_choice(w, i, c) == Some(
                ChoiceView::Edit { name: trimmed(w.name_buf), profile },
            )
        }),
        !i.cancel && !c.cancel && !(wizard_state(w, i, c) is Confirm) ==> wizard_choice(w, i, c)
            is None,
{
}

/// A frame changes where the wizard stands and nothing else; one that cancels it
/// leaves it where it stood.
pub proof fn law_wizard_after(w: WizardView, i: Intents, c: ClicksView)
    ensures
        wizard_after(w, i, c).name_buf == w.name_buf,
        wizard_after(w, i, c).appid == w.appid,
        wizard_after(w, i, c).pins == w.pins,
        wizard_after(w, i, c).default_profile == w.default_profile,
        i.cancel || c.cancel ==> wizard_after(w, i, c).state == w.state,
        !i.cancel && !c.cancel ==> wizard_after(w, i, c).state == wizard_state(w, i, c),
{
}

/// The keys of the slots one to nine are their digits, and that of slot ten is
/// the zero.
pub proof fn law_keybinds(id: u8)
    requires
        1 <= id <= 10,
    ensures
        id == 10 ==> keybind_of(id) == '0',
        id < 10 ==> keybind_of(id) as int == '0' as int + id as int,
{
}

proof fn lemma_id_chars_push(s: Seq<char>, c: char)
    ensures
        id_chars(s.push(c)) == (if is_white(c) {
            id_chars(s).push('_')
        } else if is_id_char(c) {
            id_chars(s).push(c)
        } else {
            id_chars(s)
        }),
{
    assert(s.push(c).drop_last() =~= s);
}

/// In an id white space is an underscore, letters, digits, underscores and
/// hyphens are kept, and everything else is dropped, in order.
pub proof fn law_id_of_a_name(s: Seq<char>, c: char)
    ensures
        id_chars(seq![]) == Seq::<char>::empty(),
        is_white(c) ==> id_chars(s.push(c)) == id_chars(s).push('_'),
        !is_white(c) && (('a' <= c <= 'z') || ('A' <= c <= 'Z') || ('0' <= c <= '9') || c == '_'
            || c == '-') ==> id_chars(s.push(c)) == id_chars(s).push(c),
        !is_white(c) && !(('a' <= c <= 'z') || ('A' <= c <= 'Z') || ('0' <= c <= '9') || c == '_'
            || c == '-') ==> id_chars(s.push(c)) == id_chars(s),
        id_of_name(s) == id_chars(trimmed(s)),
{
    lemma_id_chars_push(s, c);
}

/// The launch option passes the id on; without one it shows where it goes.
pub proof fn law_launch_option(id: Seq<char>)
    ensures
        launch_option(id) == "RITZ_APPID="@ + id + " ritz %command%"@,
        id.len() > 0 ==> shown_option(id) == launch_option(id),
        id.len() == 0 ==> shown_option(id) == "RITZ_APPID=<name> ritz %command%"@,
{
}

/// The clipboard is reached through Wayland's tool under Wayland, and else through
/// one of the two of X, the first of them first.
pub proof fn law_clipboard()
    ensures
        clipboard_spec(true).len() == 1 && clipboard_spec(true)[0].0 == "wl-copy"@
            && clipboard_spec(true)[0].1.len() == 0,
        clipboard_spec(false).len() == 2,
        clipboard_spec(false)[0] == ("xclip"@, seq!["-selection"@, "clipboard"@]),
        clipboard_spec(false)[1] == ("xsel"@, seq!["--clipboard"@, "--input"@]),
{
}

/// A wizard that cannot be shown launches the game, under the name that was
/// guessed and with the default profile.
pub proof fn law_unshown_wizard(name: Seq<char>, profile: Option<Seq<char>>)
    ensures
        unshown_choice(name, profile) == (ChoiceView::Launch { name, profile }),
{
}

/// An id is taken where another game has it; no id is none.
pub proof fn law_taken_ids(existing: Seq<Seq<char>>, i: int, id: Seq<char>)
    ensures
        0 <= i < existing.len() && existing[i].len() > 0 ==> is_taken(existing, existing[i]),
        !existing.contains(id) ==> !is_taken(existing, id),
        !is_taken(existing, seq![]),
{
}

// ---- Supervision -----------------------------------------------------------

/// A child that exits gives its own code, and one that a signal ends 128 and the
/// number of the signal.
pub proof fn law_exit_codes(code: i32, signal: i32, any: Option<i32>)
    ensures
        exit_code_of(Ended { code: Some(code), signal: any }) == code,
        exit_code_of(Ended { code: None, signal: Some(signal) }) == 128 + signal,
        exit_code_of(Ended { code: None, signal: None }) == 128,
{
}

/// Awaited are the processes that the handlers name, in order, and then the game
/// by its own name where it is known.
pub proof fn law_awaited(
    backends: Seq<Option<Seq<char>>>,
    name: Seq<char>,
    game: Seq<char>,
)
    ensures
        given(seq![]) == Seq::<Seq<char>>::empty(),
        given(backends.push(Some(name))) == given(backends).push(name),
        given(backends.push(None)) == given(backends),
        awaited(backends, None) == given(backends),
        awaited(backends, Some(game)) == given(backends).push(game),
{
    assert(backends.push(Some(name)).drop_last() =~= backends);
    assert(backends.push(None).drop_last() =~= backends);
}

/// In the beginning nothing is forwarded, and the game is awaited where it can be.
pub proof fn law_supervision_begins(n: nat)
    ensures
        !begun(n).forwarded,
        begun(0).ready_fired,
        n > 0 ==> !begun(n).ready_fired,
{
}

/// While the child runs: a termination is forwarded when it is asked for and was
/// not before, the game-ready stage fires when the game is seen running and it had
/// not fired or been given up, and a changed file is loaded again. When the child
/// has ended, its exit code ends the supervision.
pub proof fn law_tick(s: Supervision, t: Tick)
    ensures
        t.ended matches Some(e) ==> todo(s, t).finish == Some(exit_code_of(e) as i32),
        t.ended is None ==> {
            &&& todo(s, t).finish is None
            &&& todo(s, t).forward_term <==> t.term && !s.forwarded
            &&& todo(s, t).fire_ready <==> t.running && !s.ready_fired
            &&& todo(s, t).reload <==> t.changed
            &&& after(s, t).forwarded <==> s.forwarded || t.term
            &&& after(s, t).ready_fired <==> s.ready_fired || t.running || t.elapsed > 60_000
        },
{
}

proof fn lemma_not_yet(s: Supervision, ticks: Seq<Tick>, i: int)
    requires
        0 <= i <= ticks.len(),
    ensures
        !s.forwarded && (forall|j: int| 0 <= j < i ==> !(#[trigger] ticks[j]).term) ==> !after_all(
            s,
            ticks.take(i),
        ).forwarded,
        !s.ready_fired && (forall|j: int|
            0 <= j < i ==> !(#[trigger] ticks[j]).running && ticks[j].elapsed <= 60_000)
            ==> !after_all(s, ticks.take(i)).ready_fired,
    decreases i,
{
    if i > 0 {
        lemma_not_yet(s, ticks, i - 1);
        assert(ticks.take(i).drop_last() =~= ticks.take(i - 1));
        assert(ticks.take(i).last() == ticks[i - 1]);
    }
}

/// The first time that termination is asked for while the child runs, it is
/// forwarded; the first time that the game is seen running, within the first
/// minute, the game-ready stage fires.
pub proof fn law_first_time_counts(s: Supervision, ticks: Seq<Tick>, i: int)
    requires
        0 <= i < ticks.len(),
        ticks[i].ended is None,
    ensures
        !s.forwarded && ticks[i].term && (forall|j: int|
            0 <= j < i ==> !(#[trigger] ticks[j]).term) ==> todo_at(s, ticks, i).forward_term,
        !s.ready_fired && ticks[i].running && (forall|j: int|
            0 <= j < i ==> !(#[trigger] ticks[j]).running && ticks[j].elapsed <= 60_000) ==> todo_at(
            s,
            ticks,
            i,
        ).fire_ready,
{
    lemma_not_yet(s, ticks, i);
}

/// The wizard begins with the name, on which the guess stands, for this game and
/// with these profiles to choose from.
pub proof fn law_wizard_begins(
    appid: Seq<char>,
    pins: Seq<(u8, Seq<char>)>,
    default_profile: Option<Seq<char>>,
    guess: Seq<char>,
)
    ensures
        ({
            let w = wizard_begun(appid, pins, default_profile, guess);
            &&& w.state == StateView::Naming
            &&& w.focus_name
            &&& w.name_buf == guess
            &&& w.appid == appid
            &&& w.pins == pins
            &&& w.default_profile == default_profile
        }),
{
}

/// The launch option is copied when that is asked for and there is an id; it counts
/// as copied until the name is edited.
pub proof fn law_copying(id: Seq<char>, copied: bool, edited: bool, copy: bool)
    ensures
        id.len() > 0 ==> option_copied(id, true) == Some(launch_option(id)),
        id.len() == 0 ==> option_copied(id, copy) is None,
        option_copied(id, false) is None,
        id.len() > 0 ==> stays_copied(copied, id, edited, true),
        stays_copied(copied, id, false, false) == copied,
        !stays_copied(copied, id, true, false),
        id.len() == 0 ==> stays_copied(copied, id, edited, true) == (copied && !edited),
{
}

/// Escape closes the screen of an unknown game, and Enter copies.
pub proof fn law_unknown_keys(k: Keys)
    ensures
        k.escape ==> unknown_keys(k) == (true, false),
        !k.escape ==> unknown_keys(k) == (false, k.enter),
{
}

/// What is typed is the name while the name is asked for, as it is typed, and
/// nothing at any other time.
pub proof fn law_typing(w: WizardView, text: Seq<char>)
    ensures
        w.state is Naming ==> name_typed(w, text).name_buf == text,
        !(w.state is Naming) ==> name_typed(w, text) == w,
        name_typed(w, text).state == w.state,
        name_typed(w, text).appid == w.appid && name_typed(w, text).pins == w.pins,
        name_typed(w, text).default_profile == w.default_profile,
{
}

/// A text that is too wide is cut to the longest beginning that fits with two dots
/// behind it.
pub proof fn law_cut_is_longest(
    text: Seq<char>,
    k: int,
    n: int,
    truth: spec_fn(Seq<char>) -> bool,
)
    requires
        0 <= k <= n <= text.len(),
        k == 0 || !truth(text.take(k) + ".."@),
        forall|j: int| k < j <= n ==> truth(#[trigger] text.take(j) + ".."@),
    ensures
        cut(text, n, truth) == text.take(k) + ".."@,
    decreases n,
{
    if k < n {
        assert(truth(text.take(n) + ".."@));
        law_cut_is_longest(text, k, n - 1, truth);
    }
}

} // verus!
