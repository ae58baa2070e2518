//! Parsing of Steam's expanded `%command%`, a chain of wrappers with `--` in
//! between:
//!
//! ```text
//! steam-launch-wrapper
//!   -- reaper SteamLaunch AppId=<id>
//!   -- <SteamLinuxRuntime_{sniper,soldier}>/_v2-entry-point --verb=waitforexitandrun
//!   -- <game-exe> [game args]
//! ```
//!
//! The entire `%command%` is preserved verbatim as the game command; it is only
//! searched for the AppId and the game's install folder.

use crate::data::{to_vec, Duplicate};
use crate::text::{
    after_prefix, begins, chars_of, find, first_place, holds_text, next_char, seek, stands_at,
    starts_with, strip_prefix, text_of,
};
use vstd::prelude::*;

verus! {

/// What is known of a Steam command.
#[derive(Debug)]
pub struct SteamCommand {
    /// AppId from environment, or parsed from a `reaper` `AppId=` token.
    pub appid: Option<String>,
    /// The full `%command%` tokens, verbatim.
    pub raw: Vec<String>,
    /// The game's install folder.
    pub game_name: Option<String>,
}

/// A [`SteamCommand`] as contracts speak of it.
#[verifier::ext_equal]
pub struct SteamCommandView {
    pub appid: Option<Seq<char>>,
    pub raw: Seq<Seq<char>>,
    pub game_name: Option<Seq<char>>,
}

impl DeepView for SteamCommand {
    type V = SteamCommandView;

    open spec fn deep_view(&self) -> SteamCommandView {
        SteamCommandView {
            appid: self.appid.deep_view(),
            raw: self.raw.deep_view(),
            game_name: self.game_name.deep_view(),
        }
    }
}

impl Duplicate for SteamCommand {
    fn duplicate(&self) -> (r: Self) {
        SteamCommand {
            appid: self.appid.duplicate(),
            raw: self.raw.duplicate(),
            game_name: self.game_name.duplicate(),
        }
    }
}

impl Clone for SteamCommand {
    fn clone(&self) -> (r: Self)
        ensures
            r.deep_view() == self.deep_view(),
    {
        self.duplicate()
    }
}

// ---- AppId -----------------------------------------------------------------

/// What follows `AppId=` in the first token that begins with it.
pub open spec fn appid_in(args: Seq<Seq<char>>) -> Option<Seq<char>>
    decreases args.len(),
{
    if args.len() == 0 {
        None
    } else {
        match after_prefix(args[0], "AppId="@) {
            Some(id) => Some(id),
            None => appid_in(args.drop_first()),
        }
    }
}

/// What follows `AppId=` in the first token that begins with it.
pub fn parse_appid_token(args: &[String]) -> (r: Option<String>)
    ensures
        r.deep_view() == appid_in(args.deep_view()),
{
    let ghost d = args.deep_view();
    let mut i: usize = 0;
    assert(d.skip(0) =~= d);
    while i < args.len()
        invariant
            d == args.deep_view(),
            i <= args@.len(),
            appid_in(d.skip(i as int)) == appid_in(d),
        decreases args@.len() - i,
    {
        let ghost rest = d.skip(i as int);
        assert(rest[0] == args@[i as int]@);
        assert(rest.drop_first() =~= d.skip(i + 1));
        let id = strip_prefix(args[i].as_str(), "AppId=");
        if id.is_some() {
            return id;
        }
        i += 1;
    }
    None
}

// ---- Install folder --------------------------------------------------------

/// An ASCII letter in lower case; any other character as it is.
pub open spec fn lower(c: char) -> char {
    if 'A' <= c <= 'Z' {
        ((c as u8 + 32) as u8) as char
    } else {
        c
    }
}

/// A text with its ASCII letters in lower case.
pub open spec fn ascii_lowered(s: Seq<char>) -> Seq<char> {
    s.map_values(|c: char| lower(c))
}

/// A text with its ASCII letters in lower case.
pub fn ascii_lowercase(s: &str) -> (r: String)
    ensures
        r@ == ascii_lowered(s@),
{
    let chars = chars_of(s);
    let mut r = String::new();
    let mut i: usize = 0;
    while i < chars.len()
        invariant
            chars@ == s@,
            i <= chars@.len(),
            r@ == ascii_lowered(s@).take(i as int),
        decreases chars@.len() - i,
    {
        let c = chars[i];
        let l = if 'A' <= c && c <= 'Z' {
            ((c as u8) + 32u8) as char
        } else {
            c
        };
        r.push(l);
        i += 1;
        assert(r@ =~= ascii_lowered(s@).take(i as int));
    }
    assert(r@ =~= ascii_lowered(s@));
    r
}

/// What stands in front of an install folder.
pub open spec fn marker() -> Seq<char> {
    "steamapps/common/"@
}

/// The folder behind the first `steamapps/common/` of a token: up to the next
/// `/`.
pub open spec fn folder_in(tok: Seq<char>) -> Option<Seq<char>> {
    if holds_text(tok, marker()) {
        let at = choose|at: int| first_place(tok, marker(), at);
        let rest = tok.skip(at + marker().len());
        Some(rest.take(next_char(rest, '/', 0)))
    } else {
        None
    }
}

/// A folder of Steam's own: a runtime or a Proton.
pub open spec fn is_runtime(dir: Seq<char>) -> bool {
    begins(ascii_lowered(dir), "steamlinuxruntime"@) || begins(ascii_lowered(dir), "proton"@)
}

/// The game folder that a token names, if it does.
pub open spec fn game_in(tok: Seq<char>) -> Option<Seq<char>> {
    match folder_in(tok) {
        Some(dir) => if dir.len() == 0 || is_runtime(dir) {
            None
        } else {
            Some(dir)
        },
        None => None,
    }
}

/// The game folder that the first token to name one names.
pub open spec fn install_dir(args: Seq<Seq<char>>) -> Option<Seq<char>>
    decreases args.len(),
{
    if args.len() == 0 {
        None
    } else {
        match game_in(args[0]) {
            Some(dir) => Some(dir),
            None => install_dir(args.drop_first()),
        }
    }
}

fn folder(tok: &str) -> (r: Option<String>)
    ensures
        r.deep_view() == folder_in(tok@),
{
    let chars = chars_of(tok);
    let pat = chars_of("steamapps/common/");
    match find(&chars, &pat) {
        Some(at) => {
            proof {
                assert(stands_at(tok@, marker(), at as int));
                let first = choose|x: int| first_place(tok@, marker(), x);
                assert(first_place(tok@, marker(), at as int));
                assert(first_place(tok@, marker(), first));
                if first < at {
                    assert(!stands_at(tok@, marker(), first));
                }
                if at < first {
                    assert(!stands_at(tok@, marker(), at as int));
                }
            }
            let n: usize = chars.len();
            assert(at + pat@.len() <= n);
            let from = at + pat.len();
            let end = seek(&chars, '/', from);
            let dir = text_of(&chars, from, end);
            proof {
                let rest = tok@.skip(from as int);
                crate::text::lemma_next_char_skip(tok@, '/', from as int, 0);
                assert(dir@ =~= rest.take(next_char(rest, '/', 0)));
            }
            Some(dir)
        },
        None => None,
    }
}

/// Derives the game name from its Steam install folder: the `<DIR>` in
/// `steamapps/common/<DIR>/…`, skipping the runtime and Proton folders. `None`
/// for non-standard installs.
pub fn install_dir_name(args: &[String]) -> (r: Option<String>)
    ensures
        r.deep_view() == install_dir(args.deep_view()),
{
    let ghost d = args.deep_view();
    let mut i: usize = 0;
    assert(d.skip(0) =~= d);
    while i < args.len()
        invariant
            d == args.deep_view(),
            i <= args@.len(),
            install_dir(d.skip(i as int)) == install_dir(d),
        decreases args@.len() - i,
    {
        let ghost rest = d.skip(i as int);
        assert(rest[0] == args@[i as int]@);
        assert(rest.drop_first() =~= d.skip(i + 1));
        match folder(args[i].as_str()) {
            Some(dir) => {
                let lowered = ascii_lowercase(dir.as_str());
                if chars_of(dir.as_str()).len() > 0 && !starts_with(
                    lowered.as_str(),
                    "steamlinuxruntime",
                ) && !starts_with(lowered.as_str(), "proton") {
                    return Some(dir);
                }
            },
            None => {},
        }
        i += 1;
    }
    None
}

/// What is known of a command: the AppId of the environment goes before that of
/// the tokens, and the tokens are kept verbatim.
pub open spec fn command_of(args: Seq<Seq<char>>, env_appid: Option<Seq<char>>) -> SteamCommandView {
    SteamCommandView {
        appid: match env_appid {
            Some(id) => Some(id),
            None => appid_in(args),
        },
        raw: args,
        game_name: install_dir(args),
    }
}

impl SteamCommand {
    /// Parses the tokens that follow the binary in argv.
    pub fn parse(args: &[String], env_appid: Option<String>) -> (r: Self)
        ensures
            r.deep_view() == command_of(args.deep_view(), env_appid.deep_view()),
    {
        let appid = match env_appid {
            Some(id) => Some(id),
            None => parse_appid_token(args),
        };
        let game_name = install_dir_name(args);
        SteamCommand { appid, raw: to_vec(args), game_name }
    }
}

// ---- Laws ------------------------------------------------------------------

/// The name of a game is never invented: it stands behind `steamapps/common/` in
/// one of the tokens, up to a `/` or the token's end, and is no runtime.
pub proof fn law_name_is_never_invented(args: Seq<Seq<char>>, env_appid: Option<Seq<char>>)
    ensures
        command_of(args, env_appid).game_name matches Some(name) ==> {
            &&& name.len() > 0
            &&& !name.contains('/')
            &&& !is_runtime(name)
            &&& exists|i: int| 0 <= i < args.len() && holds_text(#[trigger] args[i], marker() + name)
        },
    decreases args.len(),
{
    if args.len() > 0 {
        let tok = args[0];
        match game_in(tok) {
            Some(name) => {
                let at = choose|at: int| first_place(tok, marker(), at);
                assert(exists|at: int| first_place(tok, marker(), at)) by {
                    let j = choose|j: int| stands_at(tok, marker(), j);
                    lemma_first(tok, marker(), j);
                }
                let from = at + marker().len();
                let rest = tok.skip(from);
                crate::text::lemma_next_char(rest, '/', 0);
                let n = next_char(rest, '/', 0);
                if name.contains('/') {
                    let k = choose|k: int| 0 <= k < name.len() && name[k] == '/';
                    assert(rest[k] == '/');
                }
                let pat = marker() + name;
                assert(tok.subrange(at, at + marker().len()) =~= marker());
                assert(tok.subrange(at, at + pat.len()) =~= pat) by {
                    assert forall|k: int| 0 <= k < pat.len() implies tok.subrange(
                        at,
                        at + pat.len(),
                    )[k] == pat[k] by {
                        if k < marker().len() {
                            assert(tok.subrange(at, at + marker().len())[k] == tok[at + k]);
                        } else {
                            assert(name[k - marker().len()] == rest[k - marker().len()]);
                        }
                    }
                }
                assert(stands_at(tok, pat, at));
                assert(holds_text(args[0], pat));
            },
            None => {
                let rest = args.drop_first();
                law_name_is_never_invented(rest, env_appid);
                if let Some(name) = install_dir(rest) {
                    let i = choose|i: int|
                        0 <= i < rest.len() && holds_text(#[trigger] rest[i], marker() + name);
                    assert(holds_text(args[i + 1], marker() + name));
                }
            },
        }
    }
}

proof fn lemma_first(s: Seq<char>, pat: Seq<char>, at: int)
    requires
        stands_at(s, pat, at),
    ensures
        exists|x: int| first_place(s, pat, x),
    decreases at,
{
    if exists|j: int| 0 <= j < at && stands_at(s, pat, j) {
        let j = choose|j: int| 0 <= j < at && stands_at(s, pat, j);
        lemma_first(s, pat, j);
    } else {
        assert(first_place(s, pat, at));
    }
}

} // verus!
