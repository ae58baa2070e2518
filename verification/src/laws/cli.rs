//! What the processes of a launch are asked, and what they tell each other.

use vstd::prelude::*;

use crate::cli::{
    after_exit, appid_given, behind_dashes, created, dashes, edit_asked, first_plain, first_ten,
    goes_on, guess, member, mode_of, name_in, pinned, screen_of, splash_asked, splash_code,
    splash_result, status_of, store_address, timeout_for, usage_message, wizard_result, AfterSplash,
    EditArgsView, Mode, Screen, ShownView, SplashArgsView, UsageError,
};
use crate::config::{stored, GameConfigView, GeneralConfigView};
use crate::number::all_digits;
use crate::splash::{ChoiceView, SplashAction};
use crate::text::begins;
use crate::value::ValueView;

verus! {

/// The first argument decides: none opens the settings, `--print`, `--splash` and
/// `--edit` do what they say, and everything else is a command to launch.
pub proof fn law_modes(first: Seq<char>, rest: Seq<Seq<char>>)
    ensures
        mode_of(seq![]) == Mode::Gui,
        mode_of(seq!["--print"@] + rest) == Mode::Print,
        mode_of(seq!["--splash"@] + rest) == Mode::Splash,
        mode_of(seq!["--edit"@] + rest) == Mode::Edit,
        first != "--print"@ && first != "--splash"@ && first != "--edit"@ ==> mode_of(
            seq![first] + rest,
        ) == Mode::Launch,
{
    reveal_strlit("--print");
    reveal_strlit("--splash");
    reveal_strlit("--edit");
    assert("--print"@.len() == 7 && "--splash"@.len() == 8 && "--edit"@.len() == 6);
    assert((seq!["--print"@] + rest)[0] == "--print"@);
    assert((seq!["--splash"@] + rest)[0] == "--splash"@);
    assert((seq!["--edit"@] + rest)[0] == "--edit"@);
    assert((seq![first] + rest)[0] == first);
}

/// An exit status is one byte: a code in its range is kept.
pub proof fn law_status(code: i32)
    ensures
        0 <= status_of(code) < 256,
        0 <= code < 256 ==> status_of(code) == code,
        code <= i32::MAX - 256 ==> status_of((code + 256) as i32) == status_of(code),
{
}

/// The launcher's own variable wins over Steam's.
pub proof fn law_appid_given(ritz: Seq<char>, steam: Option<Seq<char>>)
    ensures
        appid_given(Some(ritz), steam) == Some(ritz),
        appid_given(None, steam) == steam,
{
}

proof fn lemma_dashes(before: Seq<Seq<char>>, rest: Seq<Seq<char>>, from: int)
    requires
        0 <= from <= before.len(),
        forall|i: int| 0 <= i < before.len() ==> #[trigger] before[i] != "--"@,
    ensures
        dashes(before, from) == before.len(),
        dashes(before + seq!["--"@] + rest, from) == before.len(),
    decreases before.len() - from,
{
    let all = before + seq!["--"@] + rest;
    if from < before.len() {
        assert(all[from] == before[from]);
        lemma_dashes(before, rest, from + 1);
    } else {
        assert(all[from] == "--"@);
    }
}

/// The command is what stands behind the first `--`, as it is; without one there
/// is none.
pub proof fn law_command_behind_dashes(before: Seq<Seq<char>>, rest: Seq<Seq<char>>)
    requires
        forall|i: int| 0 <= i < before.len() ==> #[trigger] before[i] != "--"@,
    ensures
        behind_dashes(before + seq!["--"@] + rest) == Some(rest),
        behind_dashes(before) is None,
{
    lemma_dashes(before, rest, 0);
    let all = before + seq!["--"@] + rest;
    assert(all.skip(before.len() as int + 1) =~= rest);
}

/// The splash is for the game that is named first, and shows the command behind
/// the dashes; without a game it is refused.
pub proof fn law_splash_args(appid: Seq<char>, command: Seq<Seq<char>>)
    requires
        appid != "--"@,
    ensures
        splash_asked(seq![]) == Err::<SplashArgsView, UsageError>(UsageError::SplashWithoutAppid),
        splash_asked(seq![appid]) == Ok::<SplashArgsView, UsageError>(
            SplashArgsView { appid, command: seq![] },
        ),
        splash_asked(seq![appid, "--"@] + command) == Ok::<SplashArgsView, UsageError>(
            SplashArgsView { appid, command },
        ),
{
    law_command_behind_dashes(seq![appid], command);
    let all = seq![appid, "--"@] + command;
    assert(seq![appid] + seq!["--"@] + command =~= all);
    assert(all[0] == appid);
}

/// The editor is for the first argument that is no flag, in launch mode where it
/// is called with `--launch`, and with the command behind the dashes, for which
/// the placeholder stands where there is none; without a game it is refused.
pub proof fn law_edit_args(appid: Seq<char>, command: Seq<Seq<char>>)
    requires
        !begins(appid, "--"@),
    ensures
        edit_asked(seq![]) == Err::<EditArgsView, UsageError>(UsageError::EditWithoutAppid),
        edit_asked(seq!["--launch"@]) == Err::<EditArgsView, UsageError>(
            UsageError::EditWithoutAppid,
        ),
        edit_asked(seq![appid]) == Ok::<EditArgsView, UsageError>(
            EditArgsView { launch_mode: false, appid, command: seq!["%command%"@] },
        ),
        edit_asked(seq!["--launch"@, appid]) == Ok::<EditArgsView, UsageError>(
            EditArgsView { launch_mode: true, appid, command: seq!["%command%"@] },
        ),
        edit_asked(seq!["--launch"@, appid, "--"@] + command) == Ok::<EditArgsView, UsageError>(
            EditArgsView { launch_mode: true, appid, command },
        ),
        !command.contains("--launch"@) ==> edit_asked(seq![appid, "--"@] + command) == Ok::<
            EditArgsView,
            UsageError,
        >(EditArgsView { launch_mode: false, appid, command }),
{
    reveal_strlit("--launch");
    reveal_strlit("--");
    let flag = "--launch"@;
    assert(flag.len() == 8 && "--"@.len() == 2);
    assert(flag.take(2) =~= "--"@);
    assert("--"@.take(2) =~= "--"@);
    assert(begins(flag, "--"@));
    assert(begins("--"@, "--"@));
    assert(appid != flag && appid != "--"@);
    reveal_with_fuel(first_plain, 3);
    law_command_behind_dashes(seq![appid], command);
    law_command_behind_dashes(seq![flag, appid], command);
    let a = seq![appid];
    let b = seq![flag, appid];
    let c = seq![flag, appid, "--"@] + command;
    let d = seq![appid, "--"@] + command;
    assert(c =~= b + seq!["--"@] + command);
    assert(d =~= a + seq!["--"@] + command);
    assert(c[0] == flag && c[1] == appid);
    assert(d[0] == appid);
    assert(b[0] == flag);
    assert(!a.contains(flag));
    if !command.contains(flag) {
        assert(!d.contains(flag)) by {
            if d.contains(flag) {
                let i = choose|i: int| 0 <= i < d.len() && d[i] == flag;
                assert(i >= 2);
                assert(command[i - 2] == flag);
            }
        }
    }
}

/// What the splash chose comes back from its exit code; a splash that left none
/// launches the game.
pub proof fn law_splash_comes_back()
    ensures
        after_exit(Some(splash_code(SplashAction::Launch))) == AfterSplash::Launch,
        after_exit(Some(splash_code(SplashAction::Cancel))) == AfterSplash::Cancel,
        after_exit(Some(splash_code(SplashAction::Edit))) == AfterSplash::Edit,
        after_exit(None) == AfterSplash::Launch,
        splash_code(SplashAction::Launch) == 0,
        splash_code(SplashAction::Cancel) == 10,
        splash_code(SplashAction::Edit) == 11,
{
}

/// A game that is configured is counted down to; one that is not is set up, unless
/// it is not known at all.
pub proof fn law_screens(appid: Seq<char>)
    ensures
        screen_of(appid, true) == Screen::Countdown,
        screen_of("unknown"@, false) == Screen::Unknown,
        appid != "unknown"@ ==> screen_of(appid, false) == Screen::NewGame,
{
}

/// A new game is saved under its id, its name and its profile, with no settings of
/// its own, to be launched or edited as was chosen; cancelling saves nothing.
pub proof fn law_new_game_is_saved(
    appid: Seq<char>,
    name: Seq<char>,
    profile: Option<Seq<char>>,
    author: Seq<char>,
    ext: Seq<char>,
    var: Seq<char>,
)
    ensures
        ({
            let g = created(appid, name, profile);
            &&& g.game.appid == appid
            &&& g.game.name == name
            &&& g.config.modules.preset == profile
            &&& g.config.general.splash_timeout_secs is None
            &&& stored(g.config.modules.authors, author, ext, var) is None
        }),
        wizard_result(appid, ChoiceView::Launch { name, profile }) == (
            0i32,
            Some(created(appid, name, profile)),
        ),
        wizard_result(appid, ChoiceView::Edit { name, profile }) == (
            11i32,
            Some(created(appid, name, profile)),
        ),
        wizard_result(appid, ChoiceView::Cancel) == (10i32, None::<GameConfigView>),
{
}

/// Each screen of the splash ends in its own way: the unknown one cancels, the new
/// game as its wizard says, and the countdown as its action says; only a new game
/// is saved.
pub proof fn law_splash_result(appid: Seq<char>, c: ChoiceView)
    ensures
        splash_result(appid, ShownView::Unknown) == (10i32, None::<GameConfigView>),
        splash_result(appid, ShownView::NewGame(c)) == wizard_result(appid, c),
        splash_result(appid, ShownView::Countdown(SplashAction::Launch)) == (
            0i32,
            None::<GameConfigView>,
        ),
        splash_result(appid, ShownView::Countdown(SplashAction::Cancel)) == (
            10i32,
            None::<GameConfigView>,
        ),
        splash_result(appid, ShownView::Countdown(SplashAction::Edit)) == (
            11i32,
            None::<GameConfigView>,
        ),
{
}

/// Behind the editor the launch goes on where it ended well, or could not be
/// started.
pub proof fn law_after_editor(code: i32, any: Option<i32>)
    ensures
        goes_on(false, any),
        goes_on(true, Some(code)) <==> code == 0,
        !goes_on(true, None),
{
}

/// The game's own timeout wins over the general one.
pub proof fn law_timeout(game: GameConfigView, general: GeneralConfigView)
    ensures
        game.config.general.splash_timeout_secs matches Some(t) ==> timeout_for(game, general) == t,
        game.config.general.splash_timeout_secs is None ==> timeout_for(game, general)
            == general.splash_timeout_secs,
{
}

/// The name that is proposed for a new game is the store's, where the id is
/// Steam's, else that of its folder, else none.
pub proof fn law_guess(appid: Seq<char>, fetched: Option<Seq<char>>, folder: Option<Seq<char>>)
    ensures
        all_digits(appid) && fetched is Some ==> guess(appid, fetched, folder) == fetched->0,
        (!all_digits(appid) || fetched is None) && folder is Some ==> guess(appid, fetched, folder)
            == folder->0,
        (!all_digits(appid) || fetched is None) && folder is None ==> guess(
            appid,
            fetched,
            folder,
        ).len() == 0,
{
}

/// The address of a game in the store holds its id.
pub proof fn law_store_address(appid: Seq<char>)
    ensures
        store_address(appid) == "https://store.steampowered.com/api/appdetails?appids="@ + appid
            + "&filters=basic"@,
{
}

/// The value of the member under a key, of which no later one has the same.
pub proof fn law_member(o: Seq<(Seq<char>, ValueView)>, i: int, key: Seq<char>)
    ensures
        0 <= i < o.len() && (forall|j: int| i < j < o.len() ==> (#[trigger] o[j]).0 != o[i].0)
            ==> member(ValueView::Object(o), o[i].0) == Some(o[i].1),
        (forall|j: int| 0 <= j < o.len() ==> (#[trigger] o[j]).0 != key) ==> member(
            ValueView::Object(o),
            key,
        ) is None,
    decreases o.len(),
{
    if o.len() > 0 {
        let init = o.drop_last();
        let n = o.len() - 1;
        law_member(init, i, key);
        if 0 <= i < n && (forall|j: int| i < j < o.len() ==> (#[trigger] o[j]).0 != o[i].0) {
            assert(o[n].0 != o[i].0);
            assert(init[i] == o[i]);
            assert forall|j: int| i < j < init.len() implies (#[trigger] init[j]).0 != init[i].0 by {
                assert(init[j] == o[j]);
            }
        }
        if forall|j: int| 0 <= j < o.len() ==> (#[trigger] o[j]).0 != key {
            assert(o[n].0 != key);
            assert forall|j: int| 0 <= j < init.len() implies (#[trigger] init[j]).0 != key by {
                assert(init[j] == o[j]);
            }
        }
    }
}

/// The store's answer names a game where it has an entry for it that succeeded,
/// whose data has a name that is not empty; every other answer names none.
pub proof fn law_store_answer(answer: ValueView, appid: Seq<char>, name: Seq<char>)
    ensures
        name_in(answer, appid) == Some(name) <==> {
            &&& name.len() > 0
            &&& member(answer, appid) matches Some(entry) && member(entry, "success"@) == Some(
                ValueView::Bool(true),
            ) && (member(entry, "data"@) matches Some(data) && member(data, "name"@) == Some(
                ValueView::String(name),
            ))
        },
{
}

/// The profiles that have a slot are those that are pinned to it, in order.
pub proof fn law_pinned_profiles(
    profiles: Seq<(Seq<char>, Option<u8>)>,
    name: Seq<char>,
    slot: u8,
)
    ensures
        pinned(seq![]) == Seq::<(u8, Seq<char>)>::empty(),
        pinned(profiles.push((name, Some(slot)))) == pinned(profiles).push((slot, name)),
        pinned(profiles.push((name, None))) == pinned(profiles),
        first_ten(pinned(profiles)).len() <= 10,
        first_ten(pinned(profiles)).is_prefix_of(pinned(profiles)),
        pinned(profiles).len() <= 10 ==> first_ten(pinned(profiles)) == pinned(profiles),
        pinned(profiles).len() >= 10 ==> first_ten(pinned(profiles)).len() == 10,
{
    assert(profiles.push((name, Some(slot))).drop_last() =~= profiles);
    assert(profiles.push((name, None)).drop_last() =~= profiles);
}

/// What is missing is said.
pub proof fn law_usage_messages()
    ensures
        usage_message(UsageError::SplashWithoutAppid) == "--splash requires an appid"@,
        usage_message(UsageError::EditWithoutAppid) == "--edit requires an appid"@,
{
}

} // verus!
