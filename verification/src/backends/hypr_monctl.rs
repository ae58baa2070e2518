//! Display saturation, brightness and temperature per game, through a Hyprland
//! plugin that is driven by `hyprctl monctl`.
//!
//! The plugin watches which window has the focus; here a rule is registered for
//! the game's window class and cleared again.

use crate::context::{ResolvedGame, ResolvedGameView};
use crate::text::{chars_of, find, holds_text};
use vstd::prelude::*;

verus! {

/// The extension that the plugin is set up by.
pub const HYPR_EXT_ID: &'static str = "Ritze::Hypr-Monctl::1.0";

/// The backend for the plugin.
#[derive(Clone, Copy, Debug, Default, PartialEq, Eq, Structural)]
pub struct HyprMonctlBackend;

/// What a game's fields ask of the plugin; numbers are as they were written.
#[derive(Debug)]
pub struct Settings {
    pub class: String,
    pub saturation: Option<String>,
    pub brightness: Option<String>,
    pub temperature: Option<String>,
    pub plugin_path: Option<String>,
}

/// [`Settings`] as contracts speak of them.
pub struct SettingsView {
    pub class: Seq<char>,
    pub saturation: Option<Seq<char>>,
    pub brightness: Option<Seq<char>>,
    pub temperature: Option<Seq<char>>,
    pub plugin_path: Option<Seq<char>>,
}

impl DeepView for Settings {
    type V = SettingsView;

    open spec fn deep_view(&self) -> SettingsView {
        SettingsView {
            class: self.class@,
            saturation: self.saturation.deep_view(),
            brightness: self.brightness.deep_view(),
            temperature: self.temperature.deep_view(),
            plugin_path: self.plugin_path.deep_view(),
        }
    }
}

/// A field's value, where it is not empty.
pub open spec fn filled_in(game: ResolvedGameView, var: Seq<char>) -> Option<Seq<char>> {
    match game.value(HYPR_EXT_ID@, var) {
        Some(s) => if s.len() > 0 {
            Some(s)
        } else {
            None
        },
        None => None,
    }
}

/// The window class of a game: the one given, or the game's name.
pub open spec fn class_of(game: ResolvedGameView) -> Seq<char> {
    match filled_in(game, "window_class"@) {
        Some(c) => c,
        None => game.game_config.game.name,
    }
}

/// The plugin to load: the one given, or the bundled one where there is one.
pub open spec fn plugin_of(game: ResolvedGameView, bundled: Option<Seq<char>>) -> Option<Seq<char>> {
    match filled_in(game, "plugin_path"@) {
        Some(p) => Some(p),
        None => bundled,
    }
}

/// What a game's fields ask of the plugin.
pub open spec fn asked_of(game: ResolvedGameView, bundled: Option<Seq<char>>) -> SettingsView {
    SettingsView {
        class: class_of(game),
        saturation: game.value(HYPR_EXT_ID@, "saturation"@),
        brightness: game.value(HYPR_EXT_ID@, "brightness"@),
        temperature: game.value(HYPR_EXT_ID@, "temperature"@),
        plugin_path: plugin_of(game, bundled),
    }
}

/// A field's value, as text of its own.
fn field_text(game: &ResolvedGame, var: &str) -> (r: Option<String>)
    ensures
        r.deep_view() == game.deep_view().value(HYPR_EXT_ID@, var@),
{
    match game.value(HYPR_EXT_ID, var) {
        Some(s) => Some(s.to_owned()),
        None => None,
    }
}

/// A field's value, where it is not empty.
fn field_filled(game: &ResolvedGame, var: &str) -> (r: Option<String>)
    ensures
        r.deep_view() == filled_in(game.deep_view(), var@),
{
    match game.value(HYPR_EXT_ID, var) {
        Some(s) => if !s.is_empty() {
            Some(s.to_owned())
        } else {
            None
        },
        None => None,
    }
}

impl HyprMonctlBackend {
    /// What a game's fields ask of the plugin. `bundled` is where the plugin that
    /// comes with the launcher is, if it is there.
    pub fn read(&self, game: &ResolvedGame, bundled: Option<String>) -> (s: Settings)
        ensures
            s.deep_view() == asked_of(game.deep_view(), bundled.deep_view()),
    {
        let class = match field_filled(game, "window_class") {
            Some(c) => c,
            None => game.game_config.game.name.clone(),
        };
        let plugin_path = match field_filled(game, "plugin_path") {
            Some(p) => Some(p),
            None => bundled,
        };
        Settings {
            class,
            saturation: field_text(game, "saturation"),
            brightness: field_text(game, "brightness"),
            temperature: field_text(game, "temperature"),
            plugin_path,
        }
    }

    /// The commands that make the plugin follow a game: every rule is cleared before
    /// the one for the game is registered, so that none for an earlier window class
    /// is left. Each number is the one read from the settings, where one was; the
    /// defaults are 1 for saturation and brightness and 0 for temperature.
    pub fn apply(
        &self,
        class: &str,
        saturation: Option<String>,
        brightness: Option<String>,
        temperature: Option<String>,
    ) -> (r: Vec<Vec<String>>)
        ensures
            r.deep_view() == rule_commands(
                class@,
                saturation.deep_view(),
                brightness.deep_view(),
                temperature.deep_view(),
            ),
    {
        let sat = text_or(saturation, "1");
        let bright = text_or(brightness, "1");
        let temp = text_or(temperature, "0");
        let mut r: Vec<Vec<String>> = Vec::new();
        r.push(clear_cmd());
        r.push(register_cmd(class, sat.as_str(), bright.as_str(), temp.as_str()));
        assert(r.deep_view() =~= rule_commands(
            class@,
            saturation.deep_view(),
            brightness.deep_view(),
            temperature.deep_view(),
        ));
        r
    }
}

/// A text, or another one in its place.
pub open spec fn given_or(s: Option<Seq<char>>, default: Seq<char>) -> Seq<char> {
    match s {
        Some(s) => s,
        None => default,
    }
}

/// A text, or another one in its place.
fn text_or(s: Option<String>, default: &str) -> (r: String)
    ensures
        r@ == given_or(s.deep_view(), default@),
{
    match s {
        Some(s) => s,
        None => default.to_owned(),
    }
}

/// The command that removes every rule.
pub open spec fn clearing() -> Seq<Seq<char>> {
    seq!["hyprctl"@, "monctl"@, "clear"@]
}

/// The command that adds a rule.
pub open spec fn registering(
    class: Seq<char>,
    saturation: Seq<char>,
    brightness: Seq<char>,
    temperature: Seq<char>,
) -> Seq<Seq<char>> {
    seq!["hyprctl"@, "monctl"@, "register"@, class, saturation, brightness, temperature]
}

/// The command that loads the plugin.
pub open spec fn loading(plugin_so: Seq<char>) -> Seq<Seq<char>> {
    seq!["hyprctl"@, "plugin"@, "load"@, plugin_so]
}

/// The commands that make the plugin follow a game.
pub open spec fn rule_commands(
    class: Seq<char>,
    saturation: Option<Seq<char>>,
    brightness: Option<Seq<char>>,
    temperature: Option<Seq<char>>,
) -> Seq<Seq<Seq<char>>> {
    seq![
        clearing(),
        registering(
            class,
            given_or(saturation, "1"@),
            given_or(brightness, "1"@),
            given_or(temperature, "0"@),
        ),
    ]
}

/// The command that loads the plugin.
pub fn ensure_plugin_cmd(plugin_so: &str) -> (r: Vec<String>)
    ensures
        r.deep_view() == loading(plugin_so@),
{
    let mut r: Vec<String> = Vec::new();
    r.push("hyprctl".to_owned());
    r.push("plugin".to_owned());
    r.push("load".to_owned());
    r.push(plugin_so.to_owned());
    assert(r.deep_view() =~= loading(plugin_so@));
    r
}

/// The plugin is not among those that are listed.
pub open spec fn to_be_loaded(stem: Option<Seq<char>>, listed: Option<Seq<char>>) -> bool {
    !(stem matches Some(name) && listed matches Some(out) && holds_text(out, name))
}

/// Whether the plugin has to be loaded: a plugin cannot be loaded twice, and is
/// known by the stem of its file among those `listed`.
pub fn needs_loading(stem: Option<&str>, listed: Option<&str>) -> (b: bool)
    ensures
        b == to_be_loaded(stem.deep_view(), listed.deep_view()),
{
    match (stem, listed) {
        (Some(name), Some(out)) => {
            let chars = chars_of(out);
            let pat = chars_of(name);
            find(&chars, &pat).is_none()
        },
        _ => true,
    }
}

/// The command that adds a rule for a window class.
pub fn register_cmd(class: &str, sat: &str, brightness: &str, temperature: &str) -> (r: Vec<String>)
    ensures
        r.deep_view() == registering(class@, sat@, brightness@, temperature@),
{
    let mut r: Vec<String> = Vec::new();
    r.push("hyprctl".to_owned());
    r.push("monctl".to_owned());
    r.push("register".to_owned());
    r.push(class.to_owned());
    r.push(sat.to_owned());
    r.push(brightness.to_owned());
    r.push(temperature.to_owned());
    assert(r.deep_view() =~= registering(class@, sat@, brightness@, temperature@));
    r
}

/// The command that removes every rule.
pub fn clear_cmd() -> (r: Vec<String>)
    ensures
        r.deep_view() == clearing(),
{
    let mut r: Vec<String> = Vec::new();
    r.push("hyprctl".to_owned());
    r.push("monctl".to_owned());
    r.push("clear".to_owned());
    assert(r.deep_view() =~= clearing());
    r
}

} // verus!
