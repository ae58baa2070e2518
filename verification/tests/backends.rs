use ritz::backends::hypr_monctl::{
    clear_cmd, ensure_plugin_cmd, needs_loading, register_cmd, HyprMonctlBackend, HYPR_EXT_ID,
};
use ritz::backends::lsfg::{activated_body, conf_path, LsfgBackend, LSFG_EXT_ID};
use ritz::backends::{active, registry, Backend};
use ritz::builder::EnvAction;
use ritz::config::GameConfig;
use ritz::context::ResolvedGame;
use ritz::ordered::OrderedMap;
use ritz::resolve::{ExtResolution, Provenance, Resolution, ResolvedField};
use ritz::variables::ResolvedVar;

fn game(ext_id: &str, fields: &[(&str, bool, &str)]) -> ResolvedGame {
    let mut map = OrderedMap::new();
    for (name, truthy, value) in fields {
        map.insert(
            name.to_string(),
            ResolvedField {
                var: ResolvedVar::new(*truthy, value),
                provenance: Provenance::Default,
                enabled: *truthy,
                raw: None,
            },
        );
    }
    let mut exts = OrderedMap::new();
    exts.insert(ext_id.to_string(), ExtResolution { local: OrderedMap::new(), fields: map });
    ResolvedGame {
        appid: "730".into(),
        specs: vec![],
        resolution: Resolution { global: OrderedMap::new(), exts },
        game_config: GameConfig::new("730", "Counter-Strike 2"),
        preset: None,
    }
}

#[test]
fn register_command_format() {
    assert_eq!(
        register_cmd("cs2", &1.8f64.to_string(), &1.05f64.to_string(), &0.1f64.to_string()),
        vec!["hyprctl", "monctl", "register", "cs2", "1.8", "1.05", "0.1"]
    );
}

#[test]
fn clear_command_format() {
    assert_eq!(clear_cmd(), vec!["hyprctl", "monctl", "clear"]);
}

#[test]
fn plugin_load_command() {
    assert_eq!(
        ensure_plugin_cmd("/path/hyprvibr.so"),
        vec!["hyprctl", "plugin", "load", "/path/hyprvibr.so"]
    );
}

#[test]
fn rules_are_cleared_before_one_is_registered() {
    let cmds = HyprMonctlBackend.apply("cs2", Some("1.8".into()), None, None);
    assert_eq!(cmds[0], clear_cmd());
    assert_eq!(cmds[1], register_cmd("cs2", "1.8", "1", "0"));
    assert_eq!(cmds.len(), 2);
    // The defaults are the numbers as they are shown.
    assert_eq!(1.0f64.to_string(), "1");
    assert_eq!(0.0f64.to_string(), "0");
}

#[test]
fn a_plugin_is_loaded_once() {
    assert!(!needs_loading(Some("hypr-monctl"), Some("Plugin hypr-monctl by x:")));
    assert!(needs_loading(Some("hypr-monctl"), Some("no plugins loaded")));
    assert!(needs_loading(None, Some("anything")));
    assert!(needs_loading(Some("x"), None));
}

#[test]
fn the_window_class_falls_back_to_the_name() {
    let b = HyprMonctlBackend;
    let s = b.read(&game(HYPR_EXT_ID, &[("window_class", false, "")]), None);
    assert_eq!(s.class, "Counter-Strike 2");
    assert!(s.plugin_path.is_none());
    assert!(s.saturation.is_none());
    let g = game(
        HYPR_EXT_ID,
        &[("window_class", true, "cs2"), ("saturation", true, "1.8"), ("plugin_path", true, "/p.so")],
    );
    let s = b.read(&g, Some("/bundled.so".into()));
    assert_eq!(s.class, "cs2");
    assert_eq!(s.saturation.as_deref(), Some("1.8"));
    assert_eq!(s.plugin_path.as_deref(), Some("/p.so"));
    let s = b.read(&game("other", &[]), Some("/bundled.so".into()));
    assert_eq!(s.plugin_path.as_deref(), Some("/bundled.so"));
}

#[test]
fn backends_are_active_where_switched_on() {
    assert_eq!(
        registry(),
        vec![Backend::Lsfg(LsfgBackend), Backend::HyprMonctl(HyprMonctlBackend)]
    );
    assert_eq!(registry()[0].ext_id(), "Ritze::LSFG-VK::1.0");
    assert_eq!(registry()[1].ext_id(), "Ritze::Hypr-Monctl::1.0");
    let on = game(HYPR_EXT_ID, &[("enabled", true, "true")]);
    assert_eq!(active(&on), vec![Backend::HyprMonctl(HyprMonctlBackend)]);
    let off = game(LSFG_EXT_ID, &[("enabled", false, "false")]);
    assert!(active(&off).is_empty());
}

#[test]
fn frame_generation_defaults() {
    let (s, delay) = LsfgBackend.read_settings(&game(LSFG_EXT_ID, &[]));
    assert_eq!(s.multiplier, 2);
    assert_eq!(s.flow_scale, None);
    assert_eq!(s.performance_mode, Some(false));
    assert_eq!(s.hdr_mode, Some(false));
    assert_eq!(s.present_mode, None);
    assert_eq!(delay, 0);
    let start = LsfgBackend.start(&game(LSFG_EXT_ID, &[]));
    assert_eq!(start.settings.multiplier, 2);
    assert_eq!(start.later, None);
}

#[test]
fn frame_generation_can_start_late() {
    let g = game(
        LSFG_EXT_ID,
        &[
            ("multiplier", true, "4"),
            ("activation_delay", true, "30"),
            ("flow_scale", true, "0.8"),
            ("present_mode", true, "fifo"),
            ("performance_mode", true, "true"),
        ],
    );
    let (s, delay) = LsfgBackend.read_settings(&g);
    assert_eq!((s.multiplier, delay), (4, 30));
    assert_eq!(s.present_mode.as_deref(), Some("fifo"));
    let start = LsfgBackend.start(&g);
    assert_eq!(start.settings.multiplier, 1);
    assert_eq!(start.settings.flow_scale.as_deref(), Some("0.8"));
    assert_eq!(start.settings.performance_mode, Some(true));
    assert_eq!(start.later, Some((30, 4)));
    assert_eq!(activated_body(4), "Frame generation multiplier set to 4x");
    let g = game(LSFG_EXT_ID, &[("present_mode", true, "default"), ("multiplier", true, "x")]);
    let (s, _) = LsfgBackend.read_settings(&g);
    assert_eq!(s.present_mode, None);
    assert_eq!(s.multiplier, 2);
}

#[test]
fn the_game_is_known_by_the_launcher() {
    let mut env: OrderedMap<EnvAction> = OrderedMap::new();
    LsfgBackend.identify(&mut env);
    assert_eq!(env.get("LSFG_PROCESS"), Some(&EnvAction::Assign("RitzLauncher".into())));
}

#[test]
fn where_the_conf_is() {
    assert_eq!(conf_path(Some("/x.toml".into()), Some("/c".into())), "/x.toml");
    assert_eq!(conf_path(None, Some("/c".into())), "/c/lsfg-vk/conf.toml");
    assert_eq!(conf_path(None, None), "./lsfg-vk/conf.toml");
}
