//! The steps of the interactive scan.

use breadcrumbs::cli::{C_GREEN, C_RESET};
use breadcrumbs::config::{build_initial_config, Config, ConfigFiles, NetworkDef};
use breadcrumbs::nm::ScanEntry;
use breadcrumbs::scan::{Ask, Reply, Scan};

fn entry(ssid: &str) -> ScanEntry {
    ScanEntry { ssid: ssid.to_string(), signal: "70".to_string(), security: "WPA2".to_string() }
}

fn typed(s: &str) -> Reply {
    Reply::Typed(s.to_string())
}

fn failed(ask: Ask) -> String {
    match ask {
        Ask::Finish(Err(e)) => e,
        other => panic!("{other:?}"),
    }
}

/// A scan that has shown these entries and waits for a number.
fn choosing(cfg: Config, to: Option<&str>, entries: Vec<ScanEntry>) -> (Scan, Ask) {
    let (mut s, ask) = Scan::new(cfg, to.map(str::to_string));
    assert!(matches!(ask, Ask::Interface(None)));
    assert!(matches!(s.next(Reply::Interface(Some("wlan0".to_string()))), Ask::RadioOn));
    assert!(matches!(s.next(Reply::Done), Ask::Rescan(i) if i == "wlan0"));
    assert!(matches!(s.next(Reply::Done), Ask::Look(i) if i == "wlan0"));
    let ask = s.next(Reply::Seen(entries));
    (s, ask)
}

fn connecting(cfg: Config, to: Option<&str>, password: &str) -> (Scan, Ask) {
    let (mut s, ask) = choosing(cfg, to, vec![entry("Other"), entry("Cafe")]);
    match ask {
        Ask::Choose(lines) => assert_eq!(lines.len(), 2),
        other => panic!("{other:?}"),
    }
    assert!(matches!(s.next(typed("2")), Ask::Secret(p) if p == "Password for 'Cafe': "));
    let ask = s.next(typed(password));
    (s, ask)
}

fn saved(ask: Ask) -> ConfigFiles {
    match ask {
        Ask::Save(files) => files,
        other => panic!("{other:?}"),
    }
}

#[test]
fn an_unknown_profile_is_refused_before_anything_is_done() {
    let (_, ask) = Scan::new(build_initial_config(), Some("bogus".to_string()));
    assert_eq!(failed(ask), "unknown profile 'bogus'");
}

#[test]
fn the_preferred_interface_is_asked_for() {
    let mut cfg = build_initial_config();
    cfg.settings.interface = Some("wlan1".to_string());
    let (mut s, ask) = Scan::new(cfg, None);
    assert!(matches!(ask, Ask::Interface(Some(i)) if i == "wlan1"));
    assert_eq!(failed(s.next(Reply::Interface(None))), "no Wi-Fi adapter");
}

#[test]
fn a_picked_network_is_joined_and_saved() {
    let mut cfg = build_initial_config();
    cfg.settings.dns = "9.9.9.9".to_string();
    let (mut s, ask) = connecting(cfg, Some("home"), "pw");
    match ask {
        Ask::Connect { iface, net, wait, dns } => {
            assert_eq!((iface.as_str(), wait, dns.as_str()), ("wlan0", 8, "9.9.9.9"));
            assert_eq!((net.ssid.as_str(), net.password.as_deref()), ("Cafe", Some("pw")));
            assert!(!net.hidden && net.eap.is_none() && net.dns.is_none());
        }
        other => panic!("{other:?}"),
    }
    let files = saved(s.next(Reply::Connected(true)));
    assert!(files.main.networks.is_empty());
    assert!(files.main.settings.core_profiles_initialized);
    assert_eq!(files.main.profile("home").unwrap().networks, vec!["Cafe"]);
    assert_eq!(files.networks.len(), 1);
    assert_eq!((files.networks[0].ssid.as_str(), &files.networks[0].password), ("Cafe", &None));
    match s.next(Reply::Saved(Ok(()))) {
        Ask::Finish(Ok(line)) => {
            assert_eq!(line, format!("{C_GREEN}connected + saved{C_RESET} Cafe"));
        }
        other => panic!("{other:?}"),
    }
}

#[test]
fn a_saved_network_keeps_all_but_its_password() {
    let mut cfg = build_initial_config();
    cfg.networks.push(NetworkDef {
        ssid: "Cafe".to_string(),
        password: Some("old".to_string()),
        dns: Some("8.8.8.8".to_string()),
        eap: None,
        identity: None,
        ca_cert: None,
        hidden: true,
    });
    let (mut s, _) = connecting(cfg, None, "");
    let files = saved(s.next(Reply::Connected(true)));
    assert_eq!(files.networks.len(), 1);
    assert_eq!(files.networks[0].password, None);
    assert_eq!(files.networks[0].dns.as_deref(), Some("8.8.8.8"));
    assert!(files.networks[0].hidden);
}

#[test]
fn nothing_is_saved_where_the_connect_fails() {
    let (mut s, _) = connecting(build_initial_config(), Some("home"), "pw");
    assert_eq!(failed(s.next(Reply::Connected(false))), "failed to connect to Cafe");
}

#[test]
fn a_save_that_fails_is_the_error() {
    let (mut s, _) = connecting(build_initial_config(), None, "pw");
    let _ = s.next(Reply::Connected(true));
    assert_eq!(failed(s.next(Reply::Saved(Err("disk full".to_string())))), "disk full");
}

#[test]
fn a_scan_that_shows_nothing_ends() {
    let (_, ask) = choosing(build_initial_config(), None, vec![]);
    assert_eq!(failed(ask), "no networks found");
}

#[test]
fn a_choice_has_to_be_one_of_those_shown() {
    for wrong in ["0", "3", "x", ""] {
        let (mut s, _) =
            choosing(build_initial_config(), None, vec![entry("Other"), entry("Cafe")]);
        assert_eq!(failed(s.next(typed(wrong))), "invalid selection");
    }
    let (mut s, _) = choosing(build_initial_config(), None, vec![entry("")]);
    assert_eq!(
        failed(s.next(typed("1"))),
        "cannot select a hidden SSID here; use `breadcrumbs add`"
    );
}
