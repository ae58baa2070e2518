//! Extensions whose values feed a built-in handler while the game runs, in place
//! of the launch command.

pub mod hypr_monctl;
pub mod lsfg;

use crate::backends::hypr_monctl::{HyprMonctlBackend, HYPR_EXT_ID};
use crate::backends::lsfg::{LsfgBackend, LSFG_EXT_ID};
use crate::context::{ResolvedGame, ResolvedGameView};
use vstd::prelude::*;

verus! {

/// A built-in handler.
#[derive(Clone, Copy, Debug, PartialEq, Eq, Structural)]
pub enum Backend {
    Lsfg(LsfgBackend),
    HyprMonctl(HyprMonctlBackend),
}

/// The id of the extension that a backend handles.
pub open spec fn handled(b: Backend) -> Seq<char> {
    match b {
        Backend::Lsfg(_) => LSFG_EXT_ID@,
        Backend::HyprMonctl(_) => HYPR_EXT_ID@,
    }
}

impl Backend {
    /// The id of the extension that this backend handles.
    pub fn ext_id(&self) -> (id: &'static str)
        ensures
            id@ == handled(*self),
    {
        match self {
            Backend::Lsfg(_) => LSFG_EXT_ID,
            Backend::HyprMonctl(_) => HYPR_EXT_ID,
        }
    }

    /// Whether this backend is active for a game: the extension is there and
    /// switched on.
    pub fn enabled(&self, game: &ResolvedGame) -> (b: bool)
        ensures
            b == game.deep_view().truthy(handled(*self), "enabled"@),
    {
        game.truthy(self.ext_id(), "enabled")
    }
}

/// All backends.
pub open spec fn registered() -> Seq<Backend> {
    seq![Backend::Lsfg(LsfgBackend), Backend::HyprMonctl(HyprMonctlBackend)]
}

/// All backends.
pub fn registry() -> (r: Vec<Backend>)
    ensures
        r@ == registered(),
{
    let mut r: Vec<Backend> = Vec::new();
    r.push(Backend::Lsfg(LsfgBackend));
    r.push(Backend::HyprMonctl(HyprMonctlBackend));
    assert(r@ =~= registered());
    r
}

/// Those of some backends that are active for a game.
pub open spec fn enabled_among(backends: Seq<Backend>, game: ResolvedGameView) -> Seq<Backend>
    decreases backends.len(),
{
    if backends.len() == 0 {
        seq![]
    } else if game.truthy(handled(backends.last()), "enabled"@) {
        enabled_among(backends.drop_last(), game).push(backends.last())
    } else {
        enabled_among(backends.drop_last(), game)
    }
}

/// The backends active for a game.
pub fn active(game: &ResolvedGame) -> (r: Vec<Backend>)
    ensures
        r@ == enabled_among(registered(), game.deep_view()),
{
    let all = registry();
    let mut r: Vec<Backend> = Vec::new();
    let mut i: usize = 0;
    while i < all.len()
        invariant
            i <= all@.len(),
            r@ == enabled_among(all@.take(i as int), game.deep_view()),
        decreases all@.len() - i,
    {
        assert(all@.take(i + 1).drop_last() =~= all@.take(i as int));
        if all[i].enabled(game) {
            r.push(all[i]);
        }
        i = i + 1;
    }
    assert(all@.take(i as int) =~= all@);
    r
}

/// The active backends are just the registered ones whose extension is switched
/// on.
pub proof fn law_active_backends(game: ResolvedGameView, b: Backend)
    ensures
        enabled_among(registered(), game).contains(b) <==> game.truthy(handled(b), "enabled"@),
        enabled_among(registered(), game).len() <= 2,
{
    let all = registered();
    let first = seq![Backend::Lsfg(LsfgBackend)];
    assert(all.drop_last() =~= first);
    assert(first.drop_last() =~= Seq::<Backend>::empty());
    reveal_with_fuel(enabled_among, 3);
    let r = enabled_among(all, game);
    if game.truthy(LSFG_EXT_ID@, "enabled"@) {
        assert(r[0] == Backend::Lsfg(LsfgBackend));
    }
    if game.truthy(HYPR_EXT_ID@, "enabled"@) {
        assert(r[r.len() - 1] == Backend::HyprMonctl(HyprMonctlBackend));
    }
}

} // verus!
