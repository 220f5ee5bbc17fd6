//! Settings, networks, profiles, and what is loaded and saved of them.

use breadcrumbs::config::{
    build_initial_config, canonical_networks, config_dir, config_path, core_profiles,
    ensure_core_profiles, find_network, hhmm_to_minutes, log_path, networks_path, state_dir,
    state_path, unit_dir, window_contains, Config, NetworkDef, Profile, ScheduleEntry, Settings,
    MIN_WATCH_INTERVAL,
};
use breadcrumbs::profiles::Profiles;

fn net(ssid: &str, password: Option<&str>) -> NetworkDef {
    NetworkDef {
        ssid: ssid.to_string(),
        password: password.map(str::to_string),
        dns: None,
        eap: None,
        identity: None,
        ca_cert: None,
        hidden: false,
    }
}

fn entry(profile: &str, from: &str, to: &str) -> ScheduleEntry {
    ScheduleEntry { profile: profile.into(), from: from.into(), to: to.into() }
}

fn ssids(nets: &[NetworkDef]) -> Vec<&str> {
    nets.iter().map(|n| n.ssid.as_str()).collect()
}

#[test]
fn initial_config_is_empty_with_core_profiles() {
    let cfg = build_initial_config();
    assert!(cfg.networks.is_empty());
    assert_eq!(cfg.profiles.len(), 3);
    assert!(cfg.profile("home").is_some());
    assert!(cfg.profile("work").is_some());
    assert!(cfg.profile("away").is_some());
    assert!(cfg.profile("away").unwrap().include_all_known);
}

#[test]
fn ensure_core_profiles_backfills_missing() {
    let mut cfg =
        Config { settings: Settings::default(), networks: vec![], profiles: Profiles::new() };
    ensure_core_profiles(&mut cfg);
    assert!(cfg.profile("home").is_some());
    assert!(cfg.profile("work").is_some());
    assert!(cfg.profile("away").is_some());
}

#[test]
fn ensure_core_profiles_skips_backfill_once_initialized() {
    // After the first save the config is user-owned: a deliberately deleted
    // core profile must stay deleted instead of being resurrected on every load.
    let mut cfg = Config {
        settings: Settings { core_profiles_initialized: true, ..Default::default() },
        networks: vec![],
        profiles: Profiles::new(),
    };
    ensure_core_profiles(&mut cfg);
    assert!(cfg.profiles.is_empty(), "no backfill once user-owned");
}

#[test]
fn ensure_core_profiles_preserves_user_customized_core_profile() {
    // A user-edited "home" (custom SSIDs) must not be clobbered by the
    // self-heal backfill: only genuinely missing core profiles are inserted.
    let mut profiles = Profiles::new();
    profiles.insert(
        "home".to_string(),
        Profile { networks: vec!["CustomSSID".into()], ..Default::default() },
    );
    let mut cfg = Config { settings: Settings::default(), networks: vec![], profiles };
    ensure_core_profiles(&mut cfg);
    assert_eq!(cfg.profile("home").unwrap().networks, vec!["CustomSSID".to_string()]);
    // Still backfills the ones that were actually missing.
    assert!(cfg.profile("work").is_some());
    assert!(cfg.profile("away").is_some());
}

#[test]
fn settings_default_matches_documented_defaults() {
    let s = Settings::default();
    assert_eq!(s.dns, "1.1.1.1");
    assert_eq!(s.connect_wait, 8);
    assert_eq!(s.default_profile, "away");
    assert_eq!(s.watch_interval, 12);
    assert_eq!(s.ping_host, "1.1.1.1");
    assert!(s.exit_node.is_empty());
}

#[test]
fn profile_default_has_no_bootstrap_or_tailscale() {
    let p = Profile::default();
    assert!(p.bootstrap.is_none());
    assert!(!p.tailscale);
    assert!(!p.include_all_known);
    assert!(p.networks.is_empty());
    assert!(p.detect_ssids.is_empty());
}

#[test]
fn exit_nodes_for_prioritizes_profile_then_list_then_single_node() {
    let mut cfg = build_initial_config();
    cfg.settings.exit_node = "global".into();
    cfg.settings.exit_nodes = vec!["listA".into(), "listB".into()];
    cfg.profiles.get_mut("home").unwrap().exit_node = Some("profile".into());

    // Per-profile override wins outright.
    assert_eq!(cfg.exit_nodes_for("home"), vec!["profile".to_string()]);

    // Otherwise the priority list is used verbatim.
    cfg.profiles.get_mut("home").unwrap().exit_node = None;
    assert_eq!(cfg.exit_nodes_for("home"), vec!["listA".to_string(), "listB".to_string()]);

    // Without a list, the single setting is the (one-element) fallback.
    cfg.settings.exit_nodes = vec![];
    assert_eq!(cfg.exit_nodes_for("home"), vec!["global".to_string()]);
}

#[test]
fn exit_nodes_for_filters_empty_and_whitespace_entries() {
    let mut cfg = build_initial_config();
    cfg.settings.exit_nodes = vec!["  ".into(), "nodeA".into(), "".into(), " nodeB ".into()];
    assert_eq!(cfg.exit_nodes_for("home"), vec!["nodeA".to_string(), "nodeB".to_string()]);
}

#[test]
fn hhmm_to_minutes_parses_and_rejects_malformed() {
    assert_eq!(hhmm_to_minutes("09:30"), Some(570));
    assert_eq!(hhmm_to_minutes("00:00"), Some(0));
    assert_eq!(hhmm_to_minutes("23:59"), Some(1439));
    assert_eq!(hhmm_to_minutes("9:30"), Some(570)); // lenient about padding
    assert_eq!(hhmm_to_minutes("24:00"), None); // hour out of range
    assert_eq!(hhmm_to_minutes("12:60"), None); // minute out of range
    assert_eq!(hhmm_to_minutes("0930"), None); // no colon
    assert_eq!(hhmm_to_minutes(""), None);
}

#[test]
fn window_contains_handles_same_day_and_overnight() {
    // Same-day window 09:00-17:00 (end exclusive).
    assert!(window_contains(540, 1020, 600));
    assert!(!window_contains(540, 1020, 1020));
    assert!(!window_contains(540, 1020, 500));
    // Overnight window 22:00-07:00.
    assert!(window_contains(1320, 420, 1380)); // 23:00
    assert!(window_contains(1320, 420, 60)); // 01:00
    assert!(!window_contains(1320, 420, 720)); // 12:00
}

#[test]
fn scheduled_profile_returns_first_matching_rule() {
    let mut cfg = build_initial_config();
    cfg.settings.schedule =
        vec![entry("work", "09:00", "17:00"), entry("home", "09:30", "18:00")];
    // 10:00 matches both: the first rule (work) wins.
    assert_eq!(cfg.settings.scheduled_profile(600), Some("work".into()));
    // Outside every window no schedule applies.
    assert_eq!(cfg.settings.scheduled_profile(60), None);
}

#[test]
fn effective_dns_uses_per_network_override_then_global_fallback() {
    let n = NetworkDef {
        ssid: "x".into(),
        password: None,
        dns: Some("9.9.9.9".into()),
        eap: None,
        identity: None,
        ca_cert: None,
        hidden: false,
    };
    assert_eq!(n.effective_dns("1.1.1.1"), "9.9.9.9");
    let n2 = NetworkDef { dns: None, ..n.clone() };
    assert_eq!(n2.effective_dns("1.1.1.1"), "1.1.1.1");
    // An explicit empty string is a valid per-network opt-out.
    let n3 = NetworkDef { dns: Some(String::new()), ..n.clone() };
    assert_eq!(n3.effective_dns("1.1.1.1"), "");
}

#[test]
fn times_with_odd_forms() {
    assert_eq!(hhmm_to_minutes(" 9:5\n"), Some(545));
    assert_eq!(hhmm_to_minutes("9 : 5"), None);
    assert_eq!(hhmm_to_minutes("+1:+2"), Some(62));
    assert_eq!(hhmm_to_minutes("1:2:3"), None);
    assert_eq!(hhmm_to_minutes("-1:00"), None);
    assert_eq!(hhmm_to_minutes(":30"), None);
    assert_eq!(hhmm_to_minutes("12:"), None);
    assert_eq!(hhmm_to_minutes("4294967296:00"), None);
    assert_eq!(hhmm_to_minutes("000000000000000000000000023:59"), Some(1439));
}

#[test]
fn a_window_and_its_opposite_split_the_day() {
    for now in 0u32..1440 {
        assert_eq!(window_contains(540, 1020, now), !window_contains(1020, 540, now));
    }
    // A window that ends where it begins lasts all day.
    assert!(window_contains(600, 600, 600));
    assert!(window_contains(600, 600, 599));
}

#[test]
fn a_malformed_schedule_rule_never_applies() {
    assert!(!entry("work", "soon", "17:00").contains(600));
    assert!(!entry("work", "09:00", "").contains(600));
    assert!(entry("work", "09:00", "17:00").contains(540));
    let s = Settings {
        schedule: vec![entry("bad", "x", "y"), entry("night", "22:00", "06:00")],
        ..Default::default()
    };
    assert_eq!(s.scheduled_profile(0), Some("night".to_string()));
}

#[test]
fn a_blank_node_of_a_profile_switches_the_others_off() {
    let mut cfg = build_initial_config();
    cfg.settings.exit_node = "global".into();
    cfg.profiles.get_mut("work").unwrap().exit_node = Some("  ".into());
    assert!(cfg.exit_nodes_for("work").is_empty());
    assert_eq!(cfg.exit_nodes_for("nowhere"), vec!["global".to_string()]);
    cfg.settings.exit_node = String::new();
    assert!(cfg.exit_nodes_for("home").is_empty());
}

#[test]
fn networks_are_found_by_ssid() {
    let nets = vec![net("A", None), net("B", Some("one")), net("B", Some("two"))];
    assert_eq!(find_network(&nets, "B"), 1);
    assert_eq!(find_network(&nets, "C"), 3);
    let cfg = Config { settings: Settings::default(), networks: nets, profiles: Profiles::new() };
    assert_eq!(cfg.network("B").unwrap().password.as_deref(), Some("one"));
    assert!(cfg.network("b").is_none());
}

#[test]
fn core_profiles_are_three_and_away_takes_all_networks() {
    let p = core_profiles();
    assert_eq!(p.keys(), vec!["away".to_string(), "home".to_string(), "work".to_string()]);
    assert!(p.get("away").unwrap().include_all_known);
    assert!(!p.get("home").unwrap().include_all_known);
    assert!(!p.get("work").unwrap().include_all_known);
    assert!(p.get("work").unwrap().tailscale);
    assert!(!p.get("home").unwrap().tailscale);
    assert!(!p.get("away").unwrap().tailscale);
    for name in ["away", "home", "work"] {
        assert!(p.get(name).unwrap().networks.is_empty());
    }
    assert!(canonical_networks().is_empty());
}

#[test]
fn a_fresh_load_is_the_initial_config() {
    let cfg = Config::load(None, None);
    assert_eq!(cfg.profiles.len(), 3);
    assert!(cfg.networks.is_empty());
    assert_eq!(cfg.settings.default_profile, "away");
}

#[test]
fn watch_interval_below_minimum_is_raised_on_load() {
    let mut main = build_initial_config();
    main.settings.watch_interval = 1;
    assert_eq!(Config::load(Some(main), None).settings.watch_interval, MIN_WATCH_INTERVAL);
    let mut slow = build_initial_config();
    slow.settings.watch_interval = 40;
    assert_eq!(Config::load(Some(slow), None).settings.watch_interval, 40);
}

#[test]
fn inline_networks_merge_behind_those_of_the_file() {
    let mut main = build_initial_config();
    main.networks = vec![net("InlineNet", Some("pw-inline")), net("Both", Some("old"))];
    let file = vec![net("FileNet", Some("pw-file")), net("Both", Some("new"))];
    let cfg = Config::load(Some(main), Some(file));
    assert_eq!(ssids(&cfg.networks), vec!["FileNet", "Both", "InlineNet"]);
    assert_eq!(cfg.network("Both").unwrap().password.as_deref(), Some("new"));
}

#[test]
fn without_a_networks_file_inline_networks_stay() {
    let mut main = build_initial_config();
    main.networks = vec![net("InlineNet", Some("pw-inline"))];
    let cfg = Config::load(Some(main), None);
    assert_eq!(ssids(&cfg.networks), vec!["InlineNet"]);
}

#[test]
fn saving_splits_the_networks_off_and_takes_ownership() {
    let mut cfg = build_initial_config();
    cfg.networks = vec![net("Cafe", Some("pw"))];
    let files = cfg.save();
    assert!(cfg.settings.core_profiles_initialized);
    assert_eq!(ssids(&cfg.networks), vec!["Cafe"]);
    assert!(files.main.networks.is_empty());
    assert!(files.main.settings.core_profiles_initialized);
    assert_eq!(files.main.profiles.len(), 3);
    assert_eq!(ssids(&files.networks), vec!["Cafe"]);

    // What was saved is what is loaded.
    let back = Config::load(Some(files.main), Some(files.networks));
    assert_eq!(ssids(&back.networks), vec!["Cafe"]);
    assert_eq!(back.network("Cafe").unwrap().password.as_deref(), Some("pw"));
    assert_eq!(back.profiles.keys(), cfg.profiles.keys());
    assert_eq!(back.settings.watch_interval, 12);
}

#[test]
fn owned_profiles_stay_deleted_through_a_load() {
    let main = Config {
        settings: Settings { core_profiles_initialized: true, ..Default::default() },
        networks: vec![],
        profiles: Profiles::new(),
    };
    assert!(Config::load(Some(main), None).profiles.is_empty());
    let legacy =
        Config { settings: Settings::default(), networks: vec![], profiles: Profiles::new() };
    assert_eq!(Config::load(Some(legacy), None).profiles.len(), 3);
}

#[test]
fn paths_follow_the_environment() {
    let home = Some(b"/home/u".to_vec());
    let xdg = Some(b"/x/config".to_vec());
    assert_eq!(config_dir(&xdg, &home), b"/x/config/breadcrumbs".to_vec());
    assert_eq!(config_dir(&None, &home), b"/home/u/.config/breadcrumbs".to_vec());
    assert_eq!(config_path(&xdg, &home), b"/x/config/breadcrumbs/breadcrumbs.toml".to_vec());
    assert_eq!(networks_path(&xdg, &home), b"/x/config/breadcrumbs/networks.toml".to_vec());
    assert_eq!(unit_dir(&xdg, &home), b"/x/config/systemd/user".to_vec());
    let state = Some(b"/x/state".to_vec());
    assert_eq!(state_dir(&state, &home), b"/x/state/breadcrumbs".to_vec());
    assert_eq!(state_dir(&None, &home), b"/home/u/.local/state/breadcrumbs".to_vec());
    assert_eq!(state_path(&state, &home), b"/x/state/breadcrumbs/state.toml".to_vec());
    assert_eq!(log_path(&state, &home), b"/x/state/breadcrumbs/breadcrumbs.log".to_vec());
}

#[test]
fn profiles_keep_their_names_in_order() {
    let mut p = Profiles::new();
    assert!(p.is_empty());
    for name in ["work", "away", "home", "Away"] {
        p.insert(name.to_string(), Profile::default());
    }
    assert_eq!(p.keys(), vec!["Away", "away", "home", "work"]);
    p.insert("home".to_string(), Profile { tailscale: true, ..Default::default() });
    assert_eq!(p.len(), 4);
    assert!(p.get("home").unwrap().tailscale);
    assert!(p.contains_key("work"));
    assert!(!p.contains_key("nope"));
    assert_eq!(p.at(0).0, "Away");
    p.at_mut(1).learn = true;
    assert!(p.get("away").unwrap().learn);
    assert!(p.get_mut("nope").is_none());
}
