//! Frame generation through lsfg-vk: its `conf.toml`, and a multiplier that can be
//! raised some time after the launch.

use crate::builder::{EnvAction, EnvActionView};
use crate::context::{ResolvedGame, ResolvedGameView};
use crate::lsfg_toml::{LsfgSettings, LsfgSettingsView, RITZ_EXE};
use crate::number::{decimal, digits_of, parse_unsigned, read_unsigned};
use crate::ordered::{put, Entries, OrderedMap};
use crate::paths::{path_join, path_joined};
use crate::text::same_text;
use vstd::prelude::*;

verus! {

/// The extension that lsfg-vk is set up by.
pub const LSFG_EXT_ID: &'static str = "Ritze::LSFG-VK::1.0";

/// The backend for lsfg-vk.
#[derive(Clone, Copy, Debug, Default, PartialEq, Eq, Structural)]
pub struct LsfgBackend;

/// The number that a field holds, up to `max`; `default` where it holds none.
pub open spec fn number_or(
    game: ResolvedGameView,
    var: Seq<char>,
    max: int,
    default: int,
) -> int {
    match game.value(LSFG_EXT_ID@, var) {
        Some(s) => match read_unsigned(s, max) {
            Some(n) => n,
            None => default,
        },
        None => default,
    }
}

/// The present mode chosen for a game, where it is not the default.
pub open spec fn present_mode_of(game: ResolvedGameView) -> Option<Seq<char>> {
    match game.value(LSFG_EXT_ID@, "present_mode"@) {
        Some(m) => if m.len() > 0 && m != "default"@ {
            Some(m)
        } else {
            None
        },
        None => None,
    }
}

/// What a game's fields ask of lsfg-vk.
pub open spec fn settings_of(game: ResolvedGameView) -> LsfgSettingsView {
    LsfgSettingsView {
        multiplier: number_or(game, "multiplier"@, u32::MAX as int, 2) as u32,
        flow_scale: game.value(LSFG_EXT_ID@, "flow_scale"@),
        performance_mode: Some(game.truthy(LSFG_EXT_ID@, "performance_mode"@)),
        hdr_mode: Some(game.truthy(LSFG_EXT_ID@, "hdr_mode"@)),
        present_mode: present_mode_of(game),
    }
}

/// The seconds to wait before frame generation starts.
pub open spec fn delay_of(game: ResolvedGameView) -> u64 {
    number_or(game, "activation_delay"@, u64::MAX as int, 0) as u64
}

/// The number that a field holds, up to `max`; `default` where it holds none.
fn field_number(game: &ResolvedGame, var: &str, max: u64, default: u64) -> (n: u64)
    requires
        default <= max,
    ensures
        n == number_or(game.deep_view(), var@, max as int, default as int),
        n <= max,
{
    match game.value(LSFG_EXT_ID, var) {
        Some(s) => match parse_unsigned(s, max) {
            Some(n) => n,
            None => default,
        },
        None => default,
    }
}

/// What is to be done about lsfg-vk at the launch.
#[derive(Debug)]
pub struct LsfgStart {
    /// What to write before the launch.
    pub settings: LsfgSettings,
    /// The seconds to wait, and the multiplier to set then, where frame generation
    /// starts late.
    pub later: Option<(u64, u32)>,
}

/// What is written before the launch: a game that starts without frame generation
/// is at multiplier one.
pub open spec fn settings_at_launch(game: ResolvedGameView) -> LsfgSettingsView {
    if delay_of(game) > 0 {
        LsfgSettingsView { multiplier: 1, ..settings_of(game) }
    } else {
        settings_of(game)
    }
}

/// What is set after the launch.
pub open spec fn set_later(game: ResolvedGameView) -> Option<(u64, u32)> {
    if delay_of(game) > 0 {
        Some((delay_of(game), settings_of(game).multiplier))
    } else {
        None
    }
}

impl LsfgBackend {
    /// What a game's fields ask of lsfg-vk, and the seconds to wait before frame
    /// generation starts.
    pub fn read_settings(&self, game: &ResolvedGame) -> (r: (LsfgSettings, u64))
        ensures
            r.0.deep_view() == settings_of(game.deep_view()),
            r.1 == delay_of(game.deep_view()),
    {
        let multiplier = field_number(game, "multiplier", 0xFFFF_FFFF, 2) as u32;
        let flow_scale = match game.value(LSFG_EXT_ID, "flow_scale") {
            Some(s) => Some(s.to_owned()),
            None => None,
        };
        let present_mode = match game.value(LSFG_EXT_ID, "present_mode") {
            Some(m) => if !m.is_empty() && !same_text(m, "default") {
                Some(m.to_owned())
            } else {
                None
            },
            None => None,
        };
        let delay = field_number(game, "activation_delay", u64::MAX, 0);
        let settings = LsfgSettings {
            multiplier,
            flow_scale,
            performance_mode: Some(game.truthy(LSFG_EXT_ID, "performance_mode")),
            hdr_mode: Some(game.truthy(LSFG_EXT_ID, "hdr_mode")),
            present_mode,
        };
        (settings, delay)
    }

    /// What is to be done about lsfg-vk at the launch.
    pub fn start(&self, game: &ResolvedGame) -> (r: LsfgStart)
        ensures
            r.settings.deep_view() == settings_at_launch(game.deep_view()),
            r.later == set_later(game.deep_view()),
    {
        let (mut settings, delay) = self.read_settings(game);
        let target = settings.multiplier;
        if delay > 0 {
            settings.multiplier = 1;
            LsfgStart { settings, later: Some((delay, target)) }
        } else {
            LsfgStart { settings, later: None }
        }
    }

    /// Makes the game known to lsfg-vk under the launcher's name.
    pub fn identify(&self, game_env: &mut OrderedMap<EnvAction>)
        ensures
            final(game_env).deep_view() == identified(old(game_env).deep_view()),
    {
        game_env.insert("LSFG_PROCESS".to_owned(), EnvAction::Assign(RITZ_EXE.to_owned()));
    }
}

/// The environment in which lsfg-vk knows the game by the launcher's name.
pub open spec fn identified(game_env: Entries<EnvActionView>) -> Entries<EnvActionView> {
    put(game_env, "LSFG_PROCESS"@, EnvActionView::Assign(RITZ_EXE@))
}

/// Where the `conf.toml` is.
pub open spec fn conf_at(given: Option<Seq<char>>, config_dir: Option<Seq<char>>) -> Seq<char> {
    match given {
        Some(p) => p,
        None => path_joined(
            match config_dir {
                Some(d) => d,
                None => "."@,
            },
            "lsfg-vk/conf.toml"@,
        ),
    }
}

/// Where the `conf.toml` is: where `given` says, or in the user's configuration
/// directory.
pub fn conf_path(given: Option<String>, config_dir: Option<String>) -> (r: String)
    ensures
        r@ == conf_at(given.deep_view(), config_dir.deep_view()),
{
    match given {
        Some(p) => p,
        None => match config_dir {
            Some(d) => path_join(d.as_str(), "lsfg-vk/conf.toml"),
            None => path_join(".", "lsfg-vk/conf.toml"),
        },
    }
}

/// The text that tells that frame generation has started.
pub open spec fn activated_text(target: int) -> Seq<char> {
    "Frame generation multiplier set to "@ + digits_of(target) + "x"@
}

/// What is told when frame generation has started.
pub fn activated_body(target: u32) -> (r: String)
    ensures
        r@ == activated_text(target as int),
{
    let mut r = "Frame generation multiplier set to ".to_owned();
    r.append(decimal(target as u64).as_str());
    r.append("x");
    r
}

/// A game whose frame generation starts late ends up with the settings that it
/// would have had at once: only the multiplier differs in between.
pub proof fn law_late_start_comes_to_the_same(game: ResolvedGameView)
    ensures
        match set_later(game) {
            Some((delay, target)) => {
                &&& delay == delay_of(game) && delay > 0
                &&& settings_at_launch(game).multiplier == 1
                &&& (LsfgSettingsView { multiplier: target, ..settings_at_launch(game) })
                    == settings_of(game)
            },
            None => settings_at_launch(game) == settings_of(game),
        },
{
}

} // verus!
