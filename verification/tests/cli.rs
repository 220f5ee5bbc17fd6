//! What the commands decide, change and print.

use breadcrumbs::backend::Backend;
use breadcrumbs::cli::{
    active_profile, add_network, after_attempt, attempt_is_quiet, check_target, choose_network,
    detect_profile, detected_json, forget_network, healthy, join, keep_picked, mask, non_empty,
    parse_selection, picked_network, service_unit, show_diagnosis, show_forgotten, show_listing,
    show_outcome, show_profiles, show_pruned, show_scan, show_status, split_editor, stale_profiles,
    status_json, typed_line, AddOpts, Attempt, Findings, Joined, C_BOLD, C_DIM, C_GREEN, C_RED,
    C_RESET, C_YELLOW,
};
use breadcrumbs::config::{build_initial_config, Config, ConfigFiles, NetworkDef, Profile};
use breadcrumbs::flow::Outcome;
use breadcrumbs::json::Json;
use breadcrumbs::nm::ScanEntry;
use breadcrumbs::notify::Urgency;
use breadcrumbs::state::State;
use breadcrumbs::status::{Connectivity, Status};
use breadcrumbs::tailscale::TsHealth;

fn net(ssid: &str, password: Option<&str>) -> NetworkDef {
    NetworkDef {
        ssid: ssid.to_string(),
        password: password.map(str::to_string),
        dns: None,
        eap: None,
        identity: None,
        ca_cert: None,
        hidden: false,
    }
}

fn opts(password: Option<&str>) -> AddOpts {
    AddOpts {
        password: password.map(str::to_string),
        hidden: None,
        dns: None,
        eap: None,
        identity: None,
        ca_cert: None,
        to: None,
        at: None,
    }
}

fn signals(list: &[(&str, i32)]) -> Vec<(String, i32)> {
    list.iter().map(|(s, n)| (s.to_string(), *n)).collect()
}

fn pairs(list: &[(&str, &str)]) -> Vec<(String, String)> {
    list.iter().map(|(a, b)| (a.to_string(), b.to_string())).collect()
}

fn paint(colour: &str, s: &str) -> String {
    format!("{colour}{s}{C_RESET}")
}

fn status(internet: bool, required: bool, tailscale: Option<TsHealth>) -> Status {
    Status {
        iface: Some("wlan0".into()),
        ssid: Some("HomeWifi".into()),
        ip: None,
        internet,
        portal: false,
        tailscale_required: required,
        tailscale,
        exit_node: "exit".into(),
    }
}

#[test]
fn mask_is_fixed_length_regardless_of_secret() {
    // Fixed-length masking: the output must reveal neither the secret's length
    // nor any character of it, for empty, short, and long secrets alike.
    assert_eq!(mask(""), "•".repeat(8));
    assert_eq!(mask("a"), "•".repeat(8));
    assert_eq!(mask("ab"), "•".repeat(8));
    assert_eq!(mask("hunter2"), "•".repeat(8));
    assert!(!mask("hunter2").contains('h'));
}

#[test]
fn mask_multibyte_password_does_not_panic() {
    // The first character of a password may take more than one byte.
    let pw = "日本語パスワード";
    let masked = mask(pw);
    assert_eq!(masked, "•".repeat(8));
    assert!(masked.chars().all(|c| c == '•'));
}

#[test]
fn mask_emoji_first_character_does_not_panic() {
    let pw = "🔒password123";
    assert_eq!(mask(pw), "•".repeat(8));
}

#[test]
fn an_override_beats_the_active_profile() {
    let s = State { profile: "home".into(), updated: String::new() };
    assert_eq!(active_profile(&None, &s), "home");
    assert_eq!(active_profile(&Some("work".into()), &s), "work");
}

#[test]
fn attempts_go_on_while_there_is_time() {
    assert_eq!(after_attempt(true, 30, false), Attempt::Stop(0));
    assert_eq!(after_attempt(true, 0, true), Attempt::Stop(0));
    assert_eq!(after_attempt(false, 0, false), Attempt::Stop(1));
    assert_eq!(after_attempt(false, 30, true), Attempt::Stop(1));
    assert_eq!(after_attempt(false, 30, false), Attempt::Again);
}

#[test]
fn typed_passwords() {
    assert_eq!(non_empty(String::new()), None);
    assert_eq!(non_empty(" ".into()), Some(" ".to_string()));
    assert_eq!(typed_line("pw\r\n"), "pw");
    assert_eq!(typed_line(" p w \n\n"), " p w ");
    assert_eq!(typed_line("\n"), "");
}

#[test]
fn editors_may_have_arguments() {
    assert_eq!(split_editor(&Some("fake-editor --wait".into())), vec!["fake-editor", "--wait"]);
    assert_eq!(split_editor(&Some("  ".into())), vec!["nano"]);
    assert_eq!(split_editor(&None), vec!["nano"]);
}

#[test]
fn selections_count_from_one() {
    assert_eq!(parse_selection("1", 3), Some(0));
    assert_eq!(parse_selection("3", 3), Some(2));
    assert_eq!(parse_selection("4", 3), None);
    assert_eq!(parse_selection("0", 3), None);
    assert_eq!(parse_selection("", 3), None);
    assert_eq!(parse_selection("x", 3), None);
    assert_eq!(parse_selection("99999999999999999999999999", 3), None);
}

#[test]
fn a_scan_is_picked_from_by_number() {
    let entry = |ssid: &str| ScanEntry {
        ssid: ssid.to_string(),
        signal: "90".into(),
        security: "WPA2".into(),
    };
    let entries = vec![entry("Cafe"), entry("")];
    assert_eq!(choose_network(&entries, "1"), Ok("Cafe".to_string()));
    assert_eq!(
        choose_network(&entries, "2"),
        Err("cannot select a hidden SSID here; use `breadcrumbs add`".to_string())
    );
    assert_eq!(choose_network(&entries, "3"), Err("invalid selection".to_string()));
    let cfg = build_initial_config();
    assert_eq!(check_target(&cfg, &None), Ok(()));
    assert_eq!(check_target(&cfg, &Some("home".into())), Ok(()));
    assert_eq!(
        check_target(&cfg, &Some("bogus".into())),
        Err("unknown profile 'bogus'".to_string())
    );
}

#[test]
fn the_profile_with_more_markers_in_sight_is_detected() {
    let mut cfg = build_initial_config();
    cfg.profiles.get_mut("home").unwrap().detect_ssids = vec!["CorpWifi".into()];
    cfg.profiles.get_mut("work").unwrap().detect_ssids =
        vec!["CorpWifi".into(), "CafeWifi".into()];
    let seen = signals(&[("CorpWifi", 80), ("CafeWifi", 70)]);
    assert_eq!(detect_profile(&cfg, &seen).as_deref(), Some("work"));
    // Of equals the alphabetically first.
    assert_eq!(detect_profile(&cfg, &signals(&[("CorpWifi", 80)])).as_deref(), Some("home"));
    // Without a match, the default profile.
    assert_eq!(detect_profile(&cfg, &signals(&[])).as_deref(), Some("away"));
    cfg.settings.default_profile = "gone".into();
    assert_eq!(detect_profile(&cfg, &signals(&[])), None);
}

#[test]
fn an_added_network_keeps_what_is_not_given() {
    let mut cfg = build_initial_config();
    let first = AddOpts {
        hidden: Some(true),
        dns: Some("9.9.9.9".into()),
        eap: Some("peap".into()),
        identity: Some("user@corp".into()),
        ca_cert: Some("/etc/ca.pem".into()),
        ..opts(Some("pw"))
    };
    assert_eq!(add_network(&mut cfg, "CorpWifi", first), Ok(()));
    assert_eq!(add_network(&mut cfg, "CorpWifi", opts(Some("pw2"))), Ok(()));
    assert_eq!(cfg.networks.len(), 1);
    let n = cfg.network("CorpWifi").unwrap();
    assert_eq!(n.password.as_deref(), Some("pw2"));
    assert!(n.hidden);
    assert_eq!(n.dns.as_deref(), Some("9.9.9.9"));
    assert_eq!(n.eap.as_deref(), Some("peap"));
    assert_eq!(n.identity.as_deref(), Some("user@corp"));
    assert_eq!(n.ca_cert.as_deref(), Some("/etc/ca.pem"));
    // The password is always set anew.
    assert_eq!(add_network(&mut cfg, "CorpWifi", opts(None)), Ok(()));
    assert_eq!(cfg.network("CorpWifi").unwrap().password, None);
}

#[test]
fn an_added_network_is_attached_where_told() {
    let mut cfg = build_initial_config();
    for (ssid, at) in [("A", None), ("B", None), ("C", Some(0)), ("D", Some(1)), ("E", Some(99))] {
        let o = AddOpts { to: Some("home".into()), at, ..opts(Some("pw")) };
        assert_eq!(add_network(&mut cfg, ssid, o), Ok(()));
    }
    assert_eq!(cfg.profile("home").unwrap().networks, vec!["C", "D", "A", "B", "E"]);
    // Attached again, it moves.
    let o = AddOpts { to: Some("home".into()), at: Some(0), ..opts(None) };
    assert_eq!(add_network(&mut cfg, "B", o), Ok(()));
    assert_eq!(cfg.profile("home").unwrap().networks, vec!["B", "C", "D", "A", "E"]);
    let o = AddOpts { to: Some("bogus".into()), ..opts(Some("pw")) };
    let e = add_network(&mut cfg, "F", o).unwrap_err();
    assert!(e.contains("unknown profile 'bogus'"), "{e}");
}

#[test]
fn a_forgotten_network_leaves_no_trace() {
    let mut cfg = build_initial_config();
    let o = AddOpts { to: Some("away".into()), ..opts(Some("pw")) };
    add_network(&mut cfg, "CafeWifi", o).unwrap();
    cfg.profiles.get_mut("home").unwrap().detect_ssids = vec!["CafeWifi".into(), "X".into()];
    cfg.profiles.get_mut("work").unwrap().bootstrap = Some("CafeWifi".into());
    assert!(forget_network(&mut cfg, "CafeWifi"));
    assert!(cfg.networks.is_empty());
    assert!(cfg.profile("away").unwrap().networks.is_empty());
    assert!(!forget_network(&mut cfg, "CafeWifi"));
}

#[test]
fn only_the_first_attempt_notifies() {
    assert!(!attempt_is_quiet(0));
    assert!(attempt_is_quiet(1));
    assert!(attempt_is_quiet(u64::MAX));
}

#[test]
fn a_detected_profile_for_machines() {
    assert_eq!(
        detected_json("home"),
        Json::Object(vec![("profile".to_string(), Json::Text("home".to_string()))])
    );
}

#[test]
fn adding_and_forgetting_leave_the_rest_alone() {
    let mut cfg = build_initial_config();
    let o = AddOpts { to: Some("home".into()), ..opts(Some("hpw")) };
    add_network(&mut cfg, "HomeWifi", o).unwrap();
    let work = cfg.profile("work").unwrap().networks.clone();
    let o = AddOpts { to: Some("away".into()), ..opts(Some("cpw")) };
    add_network(&mut cfg, "CafeWifi", o).unwrap();
    assert_eq!(cfg.network("HomeWifi").unwrap().password.as_deref(), Some("hpw"));
    assert_eq!(cfg.profile("home").unwrap().networks, vec!["HomeWifi"]);
    assert_eq!(cfg.profile("work").unwrap().networks, work);
    assert!(forget_network(&mut cfg, "CafeWifi"));
    assert_eq!(cfg.networks.len(), 1);
    assert_eq!(cfg.network("HomeWifi").unwrap().password.as_deref(), Some("hpw"));
    assert_eq!(cfg.profile("home").unwrap().networks, vec!["HomeWifi"]);
    assert_eq!(cfg.profile("work").unwrap().networks, work);
}

#[test]
fn pruning_spares_what_the_configuration_speaks_of() {
    let mut cfg = build_initial_config();
    cfg.networks = vec![net("Saved", None)];
    let home = cfg.profiles.get_mut("home").unwrap();
    home.networks = vec!["Listed".into()];
    home.bootstrap = Some("Boot".into());
    let all = pairs(&[("a", "Saved"), ("OldCafe", "OldCafe"), ("b", "Listed"), ("c", "Boot")]);
    assert_eq!(stale_profiles(&cfg, &all), pairs(&[("OldCafe", "OldCafe")]));
}

#[test]
fn a_picked_network_is_joined_with_what_was_typed() {
    let n = picked_network("Cafe", "pw".to_string());
    assert_eq!((n.ssid.as_str(), n.password.as_deref()), ("Cafe", Some("pw")));
    assert!(n.dns.is_none() && n.eap.is_none() && !n.hidden);
    assert_eq!(picked_network("Cafe", String::new()).password, None);
}

#[test]
fn a_picked_network_is_kept_without_a_password() {
    let mut cfg = build_initial_config();
    keep_picked(&mut cfg, "Cafe", &Some("home".to_string()));
    assert_eq!(cfg.network("Cafe").unwrap().password, None);
    assert_eq!(cfg.profile("home").unwrap().networks, vec!["Cafe"]);
    keep_picked(&mut cfg, "Cafe", &None);
    assert_eq!(cfg.networks.len(), 1);
}

/// An interface on which connecting ends in a given way.
struct Radio {
    iface: Option<String>,
    result: Result<(), String>,
    lands_on: Option<String>,
}

impl Backend for Radio {
    fn wifi_interface(&self, _preferred: Option<&str>) -> Option<String> {
        self.iface.clone()
    }

    fn radio_on(&self) {}

    fn rescan(&self, _iface: &str, _ssids: &[String]) {}

    fn visible_signals(&self, _iface: &str) -> Vec<(String, i32)> {
        Vec::new()
    }

    fn active_ssid(&self, _iface: &str) -> Option<String> {
        self.lands_on.clone()
    }

    fn ipv4(&self, _iface: &str) -> Option<String> {
        None
    }

    fn device_connected(&self, _iface: &str) -> bool {
        self.result.is_ok()
    }

    fn connect(&self, iface: &str, _net: &NetworkDef, wait: u32, dns: &str) -> Result<(), String> {
        assert_eq!((iface, wait, dns), ("wlan0", 8, "1.1.1.1"));
        self.result.clone()
    }

    fn tailscale_installed(&self) -> bool {
        false
    }

    fn ensure_exit_node(&self, _nodes: &[String]) -> TsHealth {
        TsHealth::NotInstalled
    }

    fn tailscale_check(&self, _nodes: &[String]) -> TsHealth {
        TsHealth::NotInstalled
    }

    fn connectivity(&self, _cfg: &Config) -> Connectivity {
        Connectivity::Online
    }

    fn save(&self, _files: &ConfigFiles) -> Result<(), String> {
        Ok(())
    }

    fn notify(&self, _summary: &str, _body: &str, _urgency: Urgency) {}

    fn log(&self, _line: &str) {}
}

fn radio(iface: Option<&str>, result: Result<(), String>, lands_on: Option<&str>) -> Radio {
    Radio { iface: iface.map(str::to_string), result, lands_on: lands_on.map(str::to_string) }
}

#[test]
fn a_saved_network_is_joined_and_its_password_cleared() {
    let mut cfg = build_initial_config();
    cfg.networks = vec![net("TestNet", Some("hunter2"))];
    let b = radio(Some("wlan0"), Ok(()), Some("TestNet"));
    let files = match join(&b, &mut cfg, "TestNet") {
        Joined::Connected(Some(f)) => f,
        other => panic!("expected files to save, got {other:?}"),
    };
    assert_eq!(cfg.network("TestNet").unwrap().password, None);
    assert_eq!(files.networks[0].password, None);
    assert!(matches!(join(&b, &mut cfg, "TestNet"), Joined::Connected(None)));
}

#[test]
fn joining_may_be_refused_or_fail() {
    let mut cfg = build_initial_config();
    let b = radio(Some("wlan0"), Ok(()), None);
    assert!(matches!(
        join(&b, &mut cfg, "NeverSaved"),
        Joined::Refused(e) if e == "no saved network 'NeverSaved' — run `add` first"
    ));
    cfg.networks = vec![net("TestNet", Some("pw"))];
    let none = radio(None, Ok(()), None);
    assert!(matches!(
        join(&none, &mut cfg, "TestNet"),
        Joined::Refused(e) if e == "no Wi-Fi adapter found"
    ));
    let bad = radio(Some("wlan0"), Err("denied".into()), None);
    assert!(matches!(join(&bad, &mut cfg, "TestNet"), Joined::Failed(e) if e == "denied"));
    let astray = radio(Some("wlan0"), Ok(()), Some("Other"));
    assert!(matches!(
        join(&astray, &mut cfg, "TestNet"),
        Joined::Failed(e) if e == "device is connected to Other instead"
    ));
    assert_eq!(cfg.network("TestNet").unwrap().password.as_deref(), Some("pw"));
}

#[test]
fn outcomes_for_people() {
    assert_eq!(
        show_outcome("home", &Outcome::Connected { ssid: "A".into(), note: None }),
        format!("{} {} (home)", paint(C_GREEN, "connected"), paint(C_BOLD, "A"))
    );
    assert_eq!(
        show_outcome("home", &Outcome::Connected { ssid: "A".into(), note: Some("hm".into()) }),
        format!(
            "{} {} (home) {}",
            paint(C_GREEN, "connected"),
            paint(C_BOLD, "A"),
            paint(C_YELLOW, "— hm")
        )
    );
    assert_eq!(
        show_outcome("w", &Outcome::TailscaleError { ssid: None, health: TsHealth::Stopped }),
        format!("{}: backend stopped {}", paint(C_RED, "tailscale error"), paint(C_DIM, "(on —)"))
    );
    assert_eq!(
        show_outcome("w", &Outcome::NoInterface),
        format!("{} — hardware issue", paint(C_RED, "no Wi-Fi adapter"))
    );
    assert_eq!(
        show_outcome("w", &Outcome::NoNetworks),
        format!("{} (profile w)", paint(C_RED, "no known networks in range"))
    );
    assert_eq!(
        show_outcome("w", &Outcome::UnknownProfile("w".into())),
        format!("{}: w", paint(C_RED, "unknown profile"))
    );
}

#[test]
fn all_is_well_only_with_everything_needed() {
    assert!(healthy(&status(true, false, None)));
    assert!(!healthy(&status(false, false, None)));
    assert!(!healthy(&status(true, true, None)));
    assert!(!healthy(&status(true, true, Some(TsHealth::Stopped))));
    assert!(healthy(&status(true, true, Some(TsHealth::Healthy))));
    assert!(!healthy(&Status { iface: None, ..status(true, false, None) }));
}

#[test]
fn a_status_for_machines() {
    let v = status_json("away", &status(false, true, Some(TsHealth::NeedsLogin)));
    assert_eq!(v.get_str("profile"), Some("away"));
    assert_eq!(v.get_bool("healthy"), Some(false));
    assert_eq!(v.get_bool("internet"), Some(false));
    assert_eq!(v.get_bool("portal"), Some(false));
    assert_eq!(v.get_bool("tailscale_required"), Some(true));
    assert_eq!(v.get_str("tailscale"), Some("NeedsLogin"));
    assert_eq!(v.get("ip"), Some(&Json::Null));
    assert_eq!(v.get_str("ssid"), Some("HomeWifi"));
    assert_eq!(v.get_str("exit_node"), Some("exit"));
}

#[test]
fn a_status_for_people() {
    assert_eq!(
        show_status("home", &status(true, false, Some(TsHealth::Stopped))),
        vec![
            paint(C_BOLD, "breadcrumbs"),
            format!("  profile     {}", paint(C_BOLD, "home")),
            "  adapter     wlan0".to_string(),
            "  ssid        HomeWifi".to_string(),
            format!("  ip          {}", paint(C_DIM, "—")),
            format!("  internet    {} ok", paint(C_GREEN, "●")),
            format!(
                "  tailscale   {} backend stopped {}",
                paint(C_GREEN, "●"),
                paint(C_DIM, "(exit: exit, optional)")
            ),
            format!("  state       {}", paint(C_GREEN, "healthy")),
        ]
    );
    let lines = show_status("home", &status(false, false, None));
    assert_eq!(lines[5], format!("  internet    {} down", paint(C_RED, "●")));
    assert_eq!(lines[6], format!("  tailscale   {}", paint(C_DIM, "not installed")));
    assert_eq!(
        lines[7],
        format!(
            "  state       {} — run `breadcrumbs init`",
            paint(C_YELLOW, "needs attention")
        )
    );
}

#[test]
fn the_active_profile_is_marked() {
    let cfg = build_initial_config();
    assert_eq!(show_profiles(&cfg, "home"), vec!["  away", "* home", "  work"]);
}

#[test]
fn a_listing_masks_passwords_unless_asked() {
    let mut cfg = build_initial_config();
    cfg.networks =
        vec![net("CafeWifi", Some("hunter2")), NetworkDef { hidden: true, ..net("Lair", None) }];
    cfg.profiles.insert(
        "work".into(),
        Profile {
            bootstrap: Some("Guest".into()),
            networks: vec!["Corp".into(), "Corp2".into()],
            tailscale: true,
            include_all_known: true,
            ..Default::default()
        },
    );
    let hidden = show_listing(&cfg, false, "work").join("\n");
    assert!(!hidden.contains("hunter2"));
    assert!(hidden.contains("managed by NetworkManager"));
    assert!(hidden.contains("(hidden)"));
    assert!(hidden.contains("watch every 12s"));
    assert!(hidden.contains("    bootstrap   Guest"));
    assert!(hidden.contains("    tailscale   required (exit: )"));
    assert!(hidden.contains("    priority    Corp > Corp2 > …all other known networks"));
    assert!(hidden.contains(&format!("{} {}", paint(C_GREEN, "*"), paint(C_BOLD, "work"))));
    // Another password makes no difference to it.
    let mut other = cfg.clone();
    other.networks[0].password = Some("correct horse".into());
    assert_eq!(hidden, show_listing(&other, false, "work").join("\n"));
    assert!(show_listing(&cfg, true, "work").join("\n").contains("hunter2"));
}

#[test]
fn a_diagnosis_tells_what_is_missing() {
    let mut cfg = build_initial_config();
    cfg.networks = vec![net("A", None), net("B", None), net("C", None)];
    let f = Findings {
        network_manager: true,
        tailscale: false,
        visible: vec!["C".into(), "A".into(), "Z".into()],
    };
    let lines = show_diagnosis(&cfg, "home", &status(true, true, Some(TsHealth::Healthy)), &f);
    assert_eq!(lines[0], format!("{}  (profile home)", paint(C_BOLD, "breadcrumbs doctor")));
    assert_eq!(lines[1], "  network-manager present (D-Bus)");
    assert_eq!(lines[2], "  tailscale   absent");
    assert_eq!(lines[6], "  internet    ok");
    assert_eq!(lines[7], "  tailscale   ok (exit exit)");
    assert_eq!(lines[8], "  in range    A, C");
    let nothing = Findings { network_manager: false, tailscale: true, visible: Vec::new() };
    let lines = show_diagnosis(&cfg, "home", &status(false, false, None), &nothing);
    assert_eq!(lines[1], "  network-manager MISSING");
    assert_eq!(lines[2], "  tailscale   present");
    assert_eq!(lines[6], "  internet    DOWN");
    assert_eq!(lines[7], "  in range    none of your saved networks");
}

#[test]
fn lines_about_networks() {
    assert_eq!(
        show_forgotten("Cafe", true, false),
        format!(
            "{} Cafe (config: removed, NetworkManager: not present)",
            paint(C_GREEN, "forgot")
        )
    );
    assert_eq!(show_pruned("a", "b", true), format!("{} a (b)", paint(C_DIM, "would remove")));
    assert_eq!(show_pruned("a", "b", false), format!("{} a (b)", paint(C_GREEN, "removed")));
    let entry = |ssid: &str| ScanEntry {
        ssid: ssid.to_string(),
        signal: "90".into(),
        security: "WPA2".into(),
    };
    let lines = show_scan(&(0..10).map(|i| entry(if i == 0 { "" } else { "Net" })).collect());
    assert_eq!(
        lines[0],
        format!(" 1. {} {}", paint(C_BOLD, "<hidden>"), paint(C_DIM, "sig 90  WPA2"))
    );
    assert_eq!(
        lines[9],
        format!("10. {} {}", paint(C_BOLD, "Net"), paint(C_DIM, "sig 90  WPA2"))
    );
}

#[test]
fn the_service_starts_the_watcher() {
    let unit = service_unit("/usr/bin/breadcrumbs");
    assert!(unit.contains("\nExecStart=/usr/bin/breadcrumbs watch\n"));
    assert!(unit.contains("[Install]\nWantedBy=default.target\n"));
}
