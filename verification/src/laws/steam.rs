//! What is read from the command that Steam gives.

use vstd::prelude::*;

use crate::steam::{appid_in, ascii_lowered, command_of, folder_in, game_in, install_dir, marker};
use crate::text::{begins, first_place, next_char, stands_at};

verus! {

/// The appid is that of the first `AppId=` argument, and no argument without that
/// prefix gives one.
pub proof fn law_appid(before: Seq<Seq<char>>, id: Seq<char>, rest: Seq<Seq<char>>)
    requires
        forall|i: int| 0 <= i < before.len() ==> !begins(#[trigger] before[i], "AppId="@),
    ensures
        appid_in(before) is None,
        appid_in(before + seq!["AppId="@ + id] + rest) == Some(id),
    decreases before.len(),
{
    let arg = "AppId="@ + id;
    let all = before + seq![arg] + rest;
    if before.len() == 0 {
        crate::laws::text::law_prefix("AppId="@, id);
        assert(all[0] == arg);
    } else {
        let less = before.drop_first();
        assert(!begins(before[0], "AppId="@));
        assert(all[0] == before[0]);
        assert(all.drop_first() =~= less + seq![arg] + rest);
        assert forall|i: int| 0 <= i < less.len() implies !begins(#[trigger] less[i], "AppId="@) by {
            assert(less[i] == before[i + 1]);
        }
        law_appid(less, id, rest);
    }
}

/// The appid of the environment wins over that of the arguments; the command is
/// kept as it is, and the game's name is that of its folder.
pub proof fn law_command(args: Seq<Seq<char>>, env_appid: Seq<char>)
    ensures
        command_of(args, Some(env_appid)).appid == Some(env_appid),
        command_of(args, None).appid == appid_in(args),
        command_of(args, None).raw == args,
        command_of(args, Some(env_appid)).raw == args,
        command_of(args, None).game_name == install_dir(args),
        command_of(args, Some(env_appid)).game_name == install_dir(args),
{
}

/// The folder of an installed game is the part of its path behind the first
/// `steamapps/common/`, up to the next slash.
pub proof fn law_folder(before: Seq<char>, dir: Seq<char>, rest: Seq<char>)
    requires
        !dir.contains('/'),
        forall|j: int|
            0 <= j < before.len() ==> !stands_at(
                before + "steamapps/common/"@ + dir + rest,
                "steamapps/common/"@,
                j,
            ),
        rest.len() == 0 || rest[0] == '/',
    ensures
        folder_in(before + "steamapps/common/"@ + dir + rest) == Some(dir),
{
    let m = "steamapps/common/"@;
    let tok = before + m + dir + rest;
    let n = before.len() as int;
    assert(tok.subrange(n, n + m.len()) =~= m);
    assert(stands_at(tok, m, n));
    assert(first_place(tok, m, n));
    let at = choose|at: int| first_place(tok, marker(), at);
    assert(first_place(tok, m, at));
    if at < n {
        assert(!stands_at(tok, m, at));
    } else if at > n {
        assert(!stands_at(tok, m, n));
    }
    let tail = tok.skip(at + m.len());
    assert(tail =~= dir + rest);
    crate::text::lemma_next_char(tail, '/', 0);
    let end = next_char(tail, '/', 0);
    if end < dir.len() {
        assert(dir[end] == '/');
        assert(dir.contains('/'));
    }
    if rest.len() > 0 && end > dir.len() {
        assert(tail[dir.len() as int] == '/');
    }
    assert(tail.take(end) =~= dir);
}

/// Compatibility tools are no games: Proton and the Linux runtime, in whatever
/// case they are written. Every other folder is one.
pub proof fn law_runtimes_are_no_games(tok: Seq<char>, dir: Seq<char>)
    requires
        folder_in(tok) == Some(dir),
    ensures
        dir.len() > 0 && !begins(ascii_lowered(dir), "proton"@) && !begins(
            ascii_lowered(dir),
            "steamlinuxruntime"@,
        ) ==> game_in(tok) == Some(dir),
        begins(ascii_lowered(dir), "proton"@) || begins(ascii_lowered(dir), "steamlinuxruntime"@)
            ==> game_in(tok) is None,
        dir.len() == 0 ==> game_in(tok) is None,
{
}

/// Capital letters are lowered one by one, and nothing else is touched.
pub proof fn law_lowered(s: Seq<char>, i: int)
    requires
        0 <= i < s.len(),
    ensures
        ascii_lowered(s).len() == s.len(),
        'A' <= s[i] <= 'Z' ==> ascii_lowered(s)[i] as int == s[i] as int + 32,
        !('A' <= s[i] <= 'Z') ==> ascii_lowered(s)[i] == s[i],
{
}

/// The game is that of the first argument that lies in a game's folder.
pub proof fn law_first_game_counts(
    before: Seq<Seq<char>>,
    tok: Seq<char>,
    rest: Seq<Seq<char>>,
)
    requires
        forall|i: int| 0 <= i < before.len() ==> game_in(#[trigger] before[i]) is None,
    ensures
        install_dir(before) is None,
        game_in(tok) is Some ==> install_dir(before + seq![tok] + rest) == game_in(tok),
    decreases before.len(),
{
    let all = before + seq![tok] + rest;
    if before.len() == 0 {
        assert(all[0] == tok);
    } else {
        let less = before.drop_first();
        assert(game_in(before[0]) is None);
        assert(all[0] == before[0]);
        assert(all.drop_first() =~= less + seq![tok] + rest);
        assert forall|i: int| 0 <= i < less.len() implies game_in(#[trigger] less[i]) is None by {
            assert(less[i] == before[i + 1]);
        }
        law_first_game_counts(less, tok, rest);
    }
}

} // verus!
