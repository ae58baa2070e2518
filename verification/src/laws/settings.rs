//! How the values of profiles and games are set and taken out.

use vstd::prelude::*;

use crate::config::{
    game_set, game_unset, law_set_then_get, law_unset_then_get, new_game, preset_set, preset_unset,
    stored, valid, GameConfigView, PresetView,
};
use crate::value::ValueView;
use crate::variables::bare_name;

verus! {

/// A value that is set in a profile is read from it, and nothing else of the
/// profile changes.
pub proof fn law_profile_values(
    p: PresetView,
    author: Seq<char>,
    ext: Seq<char>,
    var: Seq<char>,
    value: ValueView,
    slot: (Seq<char>, Seq<char>, Seq<char>),
)
    requires
        valid(p.modules),
    ensures
        ({
            let q = preset_set(p, author, ext, var, value);
            let r = preset_unset(p, author, ext, var);
            &&& stored(q.modules, author, ext, var) == Some(value)
            &&& stored(r.modules, author, ext, var) is None
            &&& slot != (author, ext, var) ==> stored(q.modules, slot.0, slot.1, slot.2) == stored(
                p.modules,
                slot.0,
                slot.1,
                slot.2,
            ) && stored(r.modules, slot.0, slot.1, slot.2) == stored(
                p.modules,
                slot.0,
                slot.1,
                slot.2,
            )
            &&& q.name == p.name && q.pin == p.pin && q.parent == p.parent
            &&& r.name == p.name && r.pin == p.pin && r.parent == p.parent
        }),
{
    law_set_then_get(p.modules, author, ext, var, value, author, ext, var);
    law_set_then_get(p.modules, author, ext, var, value, slot.0, slot.1, slot.2);
    law_unset_then_get(p.modules, author, ext, var, author, ext, var);
    law_unset_then_get(p.modules, author, ext, var, slot.0, slot.1, slot.2);
}

/// A value that is set for a game is read from it, and nothing else of the game
/// changes.
pub proof fn law_game_values(
    g: GameConfigView,
    author: Seq<char>,
    ext: Seq<char>,
    var: Seq<char>,
    value: ValueView,
    slot: (Seq<char>, Seq<char>, Seq<char>),
)
    requires
        valid(g.config.modules.authors),
    ensures
        ({
            let a = g.config.modules.authors;
            let q = game_set(g, author, ext, var, value);
            let r = game_unset(g, author, ext, var);
            &&& stored(q.config.modules.authors, author, ext, var) == Some(value)
            &&& stored(r.config.modules.authors, author, ext, var) is None
            &&& slot != (author, ext, var) ==> stored(
                q.config.modules.authors,
                slot.0,
                slot.1,
                slot.2,
            ) == stored(a, slot.0, slot.1, slot.2) && stored(
                r.config.modules.authors,
                slot.0,
                slot.1,
                slot.2,
            ) == stored(a, slot.0, slot.1, slot.2)
            &&& q.game == g.game && q.config.general == g.config.general && q.config.modules.preset
                == g.config.modules.preset
            &&& r.game == g.game && r.config.general == g.config.general && r.config.modules.preset
                == g.config.modules.preset
        }),
{
    let a = g.config.modules.authors;
    law_set_then_get(a, author, ext, var, value, author, ext, var);
    law_set_then_get(a, author, ext, var, value, slot.0, slot.1, slot.2);
    law_unset_then_get(a, author, ext, var, author, ext, var);
    law_unset_then_get(a, author, ext, var, slot.0, slot.1, slot.2);
}

/// What is stored under an author, a module and a variable is found there: in the
/// entry of that author, of that module, of that variable.
pub proof fn law_stored(
    authors: crate::config::AuthorsView,
    i: int,
    j: int,
    k: int,
)
    requires
        valid(authors),
        0 <= i < authors.len(),
        0 <= j < authors[i].1.len(),
        0 <= k < authors[i].1[j].1.len(),
    ensures
        stored(authors, authors[i].0, authors[i].1[j].0, authors[i].1[j].1[k].0) == Some(
            authors[i].1[j].1[k].1,
        ),
{
    let exts = authors[i].1;
    let vars = exts[j].1;
    assert(crate::config::valid_exts(exts));
    crate::ordered::lemma_found(authors, i);
    crate::ordered::lemma_found(exts, j);
    crate::ordered::lemma_found(vars, k);
}

/// A new game has its id and its name, no profile and no values.
pub proof fn law_new_game(
    appid: Seq<char>,
    name: Seq<char>,
    author: Seq<char>,
    ext: Seq<char>,
    var: Seq<char>,
)
    ensures
        new_game(appid, name).game.appid == appid,
        new_game(appid, name).game.name == name,
        new_game(appid, name).config.modules.preset is None,
        new_game(appid, name).config.general.splash_timeout_secs is None,
        stored(new_game(appid, name).config.modules.authors, author, ext, var) is None,
{
}

/// A global variable is kept under its bare name, with its prefix or without.
pub proof fn law_bare_names(name: Seq<char>)
    ensures
        bare_name("global:"@ + name) == name,
        !crate::text::begins(name, "global:"@) ==> bare_name(name) == name,
{
    crate::laws::text::law_prefix("global:"@, name);
}

} // verus!
