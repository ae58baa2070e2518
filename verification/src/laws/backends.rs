//! What the built-in handlers take from the settings of a game.

use vstd::prelude::*;

use crate::backends::hypr_monctl::{asked_of, clearing, loading, rule_commands, HyprMonctlBackend};
use crate::backends::lsfg::{delay_of, set_later, settings_at_launch, settings_of, LsfgBackend};
use crate::backends::{enabled_among, handled, registered, Backend};
use crate::context::ResolvedGameView;
use crate::lsfg_toml::LsfgSettingsView;
use crate::notify::message_args;
use crate::number::{all_digits, digits_of, law_decimal_is_read_back};

verus! {

/// Frame generation is set as the fields of its extension say: the two flags as
/// they are on or off, the flow scale as it is written, the multiplier and the
/// delay as the numbers that are written (two and none where there is no number),
/// and the present mode unless it is left to the default.
pub proof fn law_lsfg_settings(game: ResolvedGameView, n: u32, d: u64)
    ensures
        ({
            let id = "Ritze::LSFG-VK::1.0"@;
            let s = settings_of(game);
            let times = game.value(id, "multiplier"@);
            let wait = game.value(id, "activation_delay"@);
            let mode = game.value(id, "present_mode"@);
            &&& s.performance_mode == Some(game.truthy(id, "performance_mode"@))
            &&& s.hdr_mode == Some(game.truthy(id, "hdr_mode"@))
            &&& s.flow_scale == game.value(id, "flow_scale"@)
            &&& times == Some(digits_of(n as int)) ==> s.multiplier == n
            &&& times is None ==> s.multiplier == 2
            &&& wait == Some(digits_of(d as int)) ==> delay_of(game) == d
            &&& wait is None ==> delay_of(game) == 0
            &&& mode is None || mode == Some(Seq::<char>::empty()) || mode == Some("default"@)
                ==> s.present_mode is None
            &&& mode is Some && mode->0.len() > 0 && mode->0 != "default"@ ==> s.present_mode
                == mode
        }),
{
    law_decimal_is_read_back(n as int, u32::MAX as int);
    law_decimal_is_read_back(d as int, u64::MAX as int);
}

/// A multiplier or a delay that is no number counts as not given.
pub proof fn law_lsfg_bad_numbers(game: ResolvedGameView, text: Seq<char>)
    requires
        text.len() > 0,
        text[0] != '+',
        !all_digits(text),
    ensures
        game.value("Ritze::LSFG-VK::1.0"@, "multiplier"@) == Some(text) ==> settings_of(
            game,
        ).multiplier == 2,
        game.value("Ritze::LSFG-VK::1.0"@, "activation_delay"@) == Some(text) ==> delay_of(game)
            == 0,
{
}

/// Without a delay the settings hold from the launch on; with one, everything but
/// the multiplier does, which is one until it is set after the delay.
pub proof fn law_lsfg_start(game: ResolvedGameView)
    ensures
        delay_of(game) == 0 ==> settings_at_launch(game) == settings_of(game) && set_later(game)
            is None,
        delay_of(game) > 0 ==> {
            &&& settings_at_launch(game).multiplier == 1
            &&& LsfgSettingsView {
                multiplier: settings_of(game).multiplier,
                ..settings_at_launch(game)
            } == settings_of(game)
            &&& set_later(game) == Some((delay_of(game), settings_of(game).multiplier))
        },
{
}

/// The window rule is set as the fields of its extension say; the class is the
/// name of the game, and the plugin the bundled one, where none is given.
pub proof fn law_hypr_settings(game: ResolvedGameView, bundled: Option<Seq<char>>)
    ensures
        ({
            let id = "Ritze::Hypr-Monctl::1.0"@;
            let s = asked_of(game, bundled);
            let class = game.value(id, "window_class"@);
            let plugin = game.value(id, "plugin_path"@);
            &&& s.saturation == game.value(id, "saturation"@)
            &&& s.brightness == game.value(id, "brightness"@)
            &&& s.temperature == game.value(id, "temperature"@)
            &&& class is Some && class->0.len() > 0 ==> s.class == class->0
            &&& class is None || class->0.len() == 0 ==> s.class == game.game_config.game.name
            &&& plugin is Some && plugin->0.len() > 0 ==> s.plugin_path == plugin
            &&& plugin is None || plugin->0.len() == 0 ==> s.plugin_path == bundled
        }),
{
}

/// The rule replaces the earlier ones: they are cleared, and then it is
/// registered, with saturation and brightness one and temperature zero where they
/// are not given.
pub proof fn law_hypr_commands(
    class: Seq<char>,
    saturation: Seq<char>,
    brightness: Seq<char>,
    temperature: Seq<char>,
    plugin: Seq<char>,
)
    ensures
        rule_commands(class, Some(saturation), Some(brightness), Some(temperature)) == seq![
            seq!["hyprctl"@, "monctl"@, "clear"@],
            seq![
                "hyprctl"@,
                "monctl"@,
                "register"@,
                class,
                saturation,
                brightness,
                temperature,
            ],
        ],
        rule_commands(class, None, None, None) == rule_commands(
            class,
            Some("1"@),
            Some("1"@),
            Some("0"@),
        ),
        rule_commands(class, None, Some(brightness), Some(temperature)) == rule_commands(
            class,
            Some("1"@),
            Some(brightness),
            Some(temperature),
        ),
        clearing() == seq!["hyprctl"@, "monctl"@, "clear"@],
        loading(plugin) == seq!["hyprctl"@, "plugin"@, "load"@, plugin],
{
}

/// Each handler is for its own extension, and is active where that extension is
/// enabled, the frame generation first.
pub proof fn law_active_handlers(game: ResolvedGameView)
    ensures
        handled(Backend::Lsfg(LsfgBackend)) == "Ritze::LSFG-VK::1.0"@,
        handled(Backend::HyprMonctl(HyprMonctlBackend)) == "Ritze::Hypr-Monctl::1.0"@,
        enabled_among(registered(), game) == (if game.truthy("Ritze::LSFG-VK::1.0"@, "enabled"@) {
            seq![Backend::Lsfg(LsfgBackend)]
        } else {
            seq![]
        }) + (if game.truthy("Ritze::Hypr-Monctl::1.0"@, "enabled"@) {
            seq![Backend::HyprMonctl(HyprMonctlBackend)]
        } else {
            seq![]
        }),
{
    let all = registered();
    assert(all.drop_last() =~= seq![Backend::Lsfg(LsfgBackend)]);
    assert(all.drop_last().drop_last() =~= seq![]);
    reveal_with_fuel(enabled_among, 3);
    assert(enabled_among(all, game) =~= (if game.truthy("Ritze::LSFG-VK::1.0"@, "enabled"@) {
        seq![Backend::Lsfg(LsfgBackend)]
    } else {
        seq![]
    }) + (if game.truthy("Ritze::Hypr-Monctl::1.0"@, "enabled"@) {
        seq![Backend::HyprMonctl(HyprMonctlBackend)]
    } else {
        seq![]
    }));
}

/// A notification is sent in the launcher's name, with its icon where there is
/// one, the summary before the body.
pub proof fn law_notification(icon: Seq<char>, summary: Seq<char>, body: Seq<char>)
    ensures
        message_args(None, summary, body) == seq!["-a"@, "Ritz Launcher"@, summary, body],
        message_args(Some(icon), summary, body) == seq![
            "-a"@,
            "Ritz Launcher"@,
            "-i"@,
            icon,
            summary,
            body,
        ],
{
    assert(message_args(None, summary, body) =~= seq!["-a"@, "Ritz Launcher"@, summary, body]);
    assert(message_args(Some(icon), summary, body) =~= seq![
        "-a"@,
        "Ritz Launcher"@,
        "-i"@,
        icon,
        summary,
        body,
    ]);
}

} // verus!
