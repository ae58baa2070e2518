//! In which order things are listed.

use vstd::prelude::*;

use crate::cli::{pinned, pins_listed, Pin};
use crate::config::GameConfigView;
use crate::context::{extensions_offered, game_names, games_listed, on_desktop};
use crate::extension::{LoadedExtension, LoadedExtensionView};
use crate::paths::{names_listed, stems};
use crate::sorting::{law_sorted, law_text_order_is_total, order, sorted, text_le, total};

verus! {

/// Texts are ordered by their first difference, and where there is none the
/// shorter stands first.
pub proof fn law_text_order(p: Seq<char>, c: char, d: char, x: Seq<char>, y: Seq<char>)
    ensures
        text_le(p, p),
        text_le(p, p + x),
        x.len() > 0 ==> !text_le(p + x, p),
        c < d ==> text_le(p + seq![c] + x, p + seq![d] + y) && !text_le(
            p + seq![d] + y,
            p + seq![c] + x,
        ),
    decreases p.len(),
{
    let a = p + seq![c] + x;
    let b = p + seq![d] + y;
    if p.len() == 0 {
        assert(a[0] == c && b[0] == d);
        assert(p + x =~= x);
    } else {
        let q = p.drop_first();
        law_text_order(q, c, d, x, y);
        assert(a[0] == p[0] && b[0] == p[0]);
        assert((p + x)[0] == p[0]);
        assert(a.drop_first() =~= q + seq![c] + x);
        assert(b.drop_first() =~= q + seq![d] + y);
        assert((p + x).drop_first() =~= q + x);
    }
}

/// The names in a folder are listed in the order of texts, each as often as it is
/// there.
pub proof fn law_names_in_order(files: Seq<Seq<char>>, i: int, j: int)
    requires
        0 <= i <= j < names_listed(files).len(),
    ensures
        text_le(names_listed(files)[i], names_listed(files)[j]),
        names_listed(files).to_multiset() == stems(files).to_multiset(),
{
    let le = order::<String>();
    law_text_order_is_total();
    law_sorted(stems(files), le);
    assert(le(names_listed(files)[i], names_listed(files)[j]));
}

/// The extensions are offered in the order of their names, and they are those that
/// are for the desktop.
pub proof fn law_extensions_in_order(
    loaded: Seq<LoadedExtensionView>,
    current: Option<Seq<char>>,
    i: int,
    j: int,
)
    requires
        0 <= i <= j < extensions_offered(loaded, current).len(),
    ensures
        text_le(
            extensions_offered(loaded, current)[i].spec.meta.name,
            extensions_offered(loaded, current)[j].spec.meta.name,
        ),
        extensions_offered(loaded, current).to_multiset() == on_desktop(
            loaded,
            current,
        ).to_multiset(),
{
    let le = order::<LoadedExtension>();
    let names = order::<String>();
    law_text_order_is_total();
    assert forall|a: LoadedExtensionView, b: LoadedExtensionView| #[trigger]
        le(a, b) || le(b, a) by {
        assert(names(a.spec.meta.name, b.spec.meta.name) || names(
            b.spec.meta.name,
            a.spec.meta.name,
        ));
    }
    assert forall|a: LoadedExtensionView, b: LoadedExtensionView, c: LoadedExtensionView|
        #[trigger] le(a, b) && #[trigger] le(b, c) implies le(a, c) by {
        assert(names(a.spec.meta.name, b.spec.meta.name));
        assert(names(b.spec.meta.name, c.spec.meta.name));
    }
    law_sorted(on_desktop(loaded, current), le);
    assert(le(
        extensions_offered(loaded, current)[i],
        extensions_offered(loaded, current)[j],
    ));
}

/// The games are listed by their ids, then by their names, each with its own name.
pub proof fn law_games_in_order(games: Seq<GameConfigView>, i: int, j: int, k: int)
    requires
        0 <= i <= j < games_listed(games).len(),
        0 <= k < games.len(),
    ensures
        ({
            let (a, b) = (games_listed(games)[i], games_listed(games)[j]);
            &&& text_le(a.0, b.0)
            &&& a.0 == b.0 ==> text_le(a.1, b.1)
        }),
        game_names(games)[k] == (games[k].game.appid, games[k].game.name),
        games_listed(games).to_multiset() == game_names(games).to_multiset(),
{
    let le = order::<(String, String)>();
    let texts = order::<String>();
    law_text_order_is_total();
    assert forall|a: (Seq<char>, Seq<char>), b: (Seq<char>, Seq<char>)| #[trigger]
        le(a, b) || le(b, a) by {
        assert(texts(a.0, b.0) || texts(b.0, a.0));
        assert(texts(a.1, b.1) || texts(b.1, a.1));
    }
    assert forall|
        a: (Seq<char>, Seq<char>),
        b: (Seq<char>, Seq<char>),
        c: (Seq<char>, Seq<char>),
    | #[trigger] le(a, b) && #[trigger] le(b, c) implies le(a, c) by {
        if a.0 == b.0 && b.0 == c.0 {
            assert(texts(a.1, b.1) && texts(b.1, c.1));
        } else if a.0 != b.0 && b.0 != c.0 {
            assert(texts(a.0, b.0) && texts(b.0, c.0));
            if a.0 == c.0 {
                lemma_antisymmetric(a.0, b.0);
            }
        }
    }
    law_sorted(game_names(games), le);
    let s = games_listed(games);
    assert(le(s[i], s[j]));
    law_text_order(s[i].0, 'a', 'b', seq![], seq![]);
}

proof fn lemma_antisymmetric(a: Seq<char>, b: Seq<char>)
    requires
        text_le(a, b),
        text_le(b, a),
    ensures
        a == b,
    decreases a.len(),
{
    if a.len() > 0 && b.len() > 0 {
        lemma_antisymmetric(a.drop_first(), b.drop_first());
        assert(a =~= seq![a[0]] + a.drop_first());
        assert(b =~= seq![b[0]] + b.drop_first());
    } else {
        assert(a =~= b);
    }
}

/// The pinned profiles are listed by their slots, from the lowest, ten at most.
pub proof fn law_pins_in_order(profiles: Seq<(Seq<char>, Option<u8>)>, i: int, j: int)
    requires
        0 <= i <= j < pins_listed(profiles).len(),
    ensures
        pins_listed(profiles)[i].0 <= pins_listed(profiles)[j].0,
        pins_listed(profiles).len() <= 10,
        pinned(profiles).len() <= 10 ==> pins_listed(profiles).to_multiset() == pinned(
            profiles,
        ).to_multiset(),
{
    let le = order::<Pin>();
    assert(total(le));
    law_sorted(pinned(profiles), le);
    let all = sorted(pinned(profiles), le);
    assert(le(all[i], all[j]));
    assert(all.len() == pinned(profiles).len()) by {
        broadcast use vstd::seq_lib::group_to_multiset_ensures;

        assert(all.to_multiset().len() == all.len());
        assert(pinned(profiles).to_multiset().len() == pinned(profiles).len());
    }
}

} // verus!
