use ritz::steam::{ascii_lowercase, install_dir_name, parse_appid_token, SteamCommand};

fn toks(s: &[&str]) -> Vec<String> {
    s.iter().map(|x| x.to_string()).collect()
}

/// CS2 (sniper, single runtime level).
fn cs2() -> Vec<String> {
    toks(&[
        "/home/mo/.local/share/Steam/ubuntu12_32/steam-launch-wrapper",
        "--",
        "/home/mo/.local/share/Steam/ubuntu12_32/reaper",
        "SteamLaunch",
        "AppId=730",
        "--",
        "/home/mo/.local/share/Steam/steamapps/common/SteamLinuxRuntime_sniper/_v2-entry-point",
        "--verb=waitforexitandrun",
        "--",
        "/home/mo/Schinken/Linux/Steam/steamapps/common/Counter-Strike Global Offensive/game/cs2.sh",
        "-steam",
    ])
}

/// Flappy Lord (soldier, nested scout level).
fn flappy() -> Vec<String> {
    toks(&[
        "/home/mo/.local/share/Steam/ubuntu12_32/steam-launch-wrapper",
        "--",
        "/home/mo/.local/share/Steam/ubuntu12_32/reaper",
        "SteamLaunch",
        "AppId=3746030",
        "--",
        "/home/mo/.local/share/Steam/steamapps/common/SteamLinuxRuntime_soldier/_v2-entry-point",
        "--verb=waitforexitandrun",
        "--",
        "/home/mo/Schinken/Linux/Steam/steamapps/common/SteamLinuxRuntime/scout-on-soldier-entry-point-v2",
        "--",
        "/home/mo/Schinken/Linux/Steam/steamapps/common/Flappy Lord/Flappy Lord.x86_64",
    ])
}

#[test]
fn appid_from_env_wins() {
    let c = SteamCommand::parse(&cs2(), Some("999".into()));
    assert_eq!(c.appid.as_deref(), Some("999"));
}

#[test]
fn appid_from_reaper_token() {
    let c = SteamCommand::parse(&cs2(), None);
    assert_eq!(c.appid.as_deref(), Some("730"));
    let f = SteamCommand::parse(&flappy(), None);
    assert_eq!(f.appid.as_deref(), Some("3746030"));
}

/// PEAK (Proton): the final segment starts with `proton`, and the real name is the
/// install folder.
fn peak() -> Vec<String> {
    toks(&[
        "/home/mo/.local/share/Steam/ubuntu12_32/steam-launch-wrapper",
        "--",
        "/home/mo/.local/share/Steam/ubuntu12_32/reaper",
        "SteamLaunch",
        "AppId=3527290",
        "--",
        "/home/mo/Schinken/Linux/Steam/steamapps/common/SteamLinuxRuntime_4/_v2-entry-point",
        "--verb=waitforexitandrun",
        "--",
        "/usr/share/steam/compatibilitytools.d/proton-cachyos-slr/proton",
        "waitforexitandrun",
        "/home/mo/Schinken/Linux/Steam/steamapps/common/PEAK/PEAK.exe",
        "-force-vulkan",
    ])
}

#[test]
fn name_from_install_folder() {
    // Skips the runtime dir, returns the game's install folder.
    assert_eq!(
        SteamCommand::parse(&cs2(), None).game_name.as_deref(),
        Some("Counter-Strike Global Offensive")
    );
    assert_eq!(
        SteamCommand::parse(&flappy(), None).game_name.as_deref(),
        Some("Flappy Lord")
    );
    // Proton: not "proton" — the install folder (runtime + proton dirs skipped).
    assert_eq!(
        SteamCommand::parse(&peak(), None).game_name.as_deref(),
        Some("PEAK")
    );
    // Non-standard install (no steamapps/common) → None, never invented.
    assert_eq!(
        SteamCommand::parse(&toks(&["/opt/mygame/run.sh"]), None).game_name,
        None
    );
}

#[test]
fn raw_is_preserved_verbatim() {
    let c = SteamCommand::parse(&cs2(), None);
    assert_eq!(c.raw, cs2());
}

#[test]
fn appid_token_is_found_anywhere() {
    assert_eq!(parse_appid_token(&toks(&["a", "AppId=42", "AppId=43"])).as_deref(), Some("42"));
    assert_eq!(parse_appid_token(&toks(&["a", "appid=42"])), None);
    assert_eq!(parse_appid_token(&toks(&[])), None);
}

#[test]
fn runtimes_are_never_the_game() {
    let args = toks(&[
        "/s/steamapps/common/",
        "/s/steamapps/common/STEAMLINUXRUNTIME_4/x",
        "/s/steamapps/common/Proton 9.0/proton",
        "/s/steamapps/common/Game/game",
        "/s/steamapps/common/Other/game",
    ]);
    assert_eq!(install_dir_name(&args).as_deref(), Some("Game"));
    // The marker itself is matched as it is written.
    assert_eq!(install_dir_name(&toks(&["/x/SteamApps/Common/My Game/run"])), None);
    assert_eq!(ascii_lowercase("SteamÄpps"), "steamÄpps");
}
