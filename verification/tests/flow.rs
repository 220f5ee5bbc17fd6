//! Choosing networks, and the steps of a flow.

use breadcrumbs::config::{Config, NetworkDef, Profile, Settings};
use breadcrumbs::flow::{
    check_landed, clear_password_if_used, find_signal, order_candidates, resolve_candidates,
    show_outcome, Ask, Flow, Outcome, Reply, Say, MAX_LEARNED,
};
use breadcrumbs::profiles::Profiles;
use breadcrumbs::status::Connectivity;
use breadcrumbs::tailscale::TsHealth;

fn net(ssid: &str) -> NetworkDef {
    NetworkDef {
        ssid: ssid.into(),
        password: Some("x".into()),
        dns: None,
        eap: None,
        identity: None,
        ca_cert: None,
        hidden: false,
    }
}

fn hidden(ssid: &str) -> NetworkDef {
    NetworkDef { hidden: true, ..net(ssid) }
}

fn cfg() -> Config {
    Config {
        settings: Settings::default(),
        networks: vec![net("HomeWifi"), net("WorkNet"), net("CafeWifi"), net("FallbackNet")],
        profiles: Profiles::new(),
    }
}

fn with_profile(name: &str, p: Profile) -> Config {
    let mut c = cfg();
    c.profiles.insert(name.to_string(), p);
    c
}

fn signals(list: &[(&str, i32)]) -> Vec<(String, i32)> {
    list.iter().map(|(s, n)| (s.to_string(), *n)).collect()
}

fn ssids(nets: &[NetworkDef]) -> Vec<&str> {
    nets.iter().map(|n| n.ssid.as_str()).collect()
}

fn turns(cands: &Vec<NetworkDef>, seen: &Vec<(String, i32)>) -> Vec<(String, bool)> {
    order_candidates(cands, seen).into_iter().map(|(n, unseen)| (n.ssid, unseen)).collect()
}

#[test]
fn candidates_follow_priority_order() {
    let c = cfg();
    let p =
        Profile { networks: vec!["FallbackNet".into(), "HomeWifi".into()], ..Default::default() };
    let candidates = resolve_candidates(&c, &p);
    let got: Vec<&str> = candidates.iter().map(|n| n.ssid.as_str()).collect();
    assert_eq!(got, vec!["FallbackNet", "HomeWifi"]);
}

#[test]
fn include_all_known_appends_remaining_without_dupes() {
    let c = cfg();
    let p = Profile {
        networks: vec!["HomeWifi".into()],
        include_all_known: true,
        ..Default::default()
    };
    let candidates = resolve_candidates(&c, &p);
    let got: Vec<&str> = candidates.iter().map(|n| n.ssid.as_str()).collect();
    assert_eq!(got[0], "HomeWifi");
    assert_eq!(got.len(), 4);
    assert!(got.contains(&"WorkNet"));
    // No duplicate of the explicitly-listed network.
    assert_eq!(got.iter().filter(|s| **s == "HomeWifi").count(), 1);
}

#[test]
fn unknown_ssids_in_profile_are_skipped() {
    let c = cfg();
    let p = Profile { networks: vec!["Ghost".into(), "WorkNet".into()], ..Default::default() };
    let candidates = resolve_candidates(&c, &p);
    let got: Vec<&str> = candidates.iter().map(|n| n.ssid.as_str()).collect();
    assert_eq!(got, vec!["WorkNet"]);
}

#[test]
fn empty_profile_network_list_yields_no_candidates() {
    let c = cfg();
    let p = Profile::default();
    assert!(resolve_candidates(&c, &p).is_empty());
}

#[test]
fn duplicate_ssids_within_profile_list_are_deduped() {
    let c = cfg();
    let p = Profile {
        networks: vec!["HomeWifi".into(), "HomeWifi".into(), "WorkNet".into()],
        ..Default::default()
    };
    let candidates = resolve_candidates(&c, &p);
    let got: Vec<&str> = candidates.iter().map(|n| n.ssid.as_str()).collect();
    assert_eq!(got, vec!["HomeWifi", "WorkNet"]);
}

#[test]
fn include_all_known_with_full_priority_list_appends_nothing_new() {
    let c = cfg();
    let p = Profile {
        networks: vec![
            "HomeWifi".into(),
            "WorkNet".into(),
            "CafeWifi".into(),
            "FallbackNet".into(),
        ],
        include_all_known: true,
        ..Default::default()
    };
    let got = resolve_candidates(&c, &p);
    assert_eq!(got.len(), 4);
}

#[test]
fn include_all_known_on_empty_priority_list_returns_all_networks() {
    let c = cfg();
    let p = Profile { include_all_known: true, ..Default::default() };
    assert_eq!(resolve_candidates(&c, &p).len(), 4);
}

#[test]
fn outcome_ok_is_true_only_for_connected() {
    assert!(Outcome::Connected { ssid: "x".into(), note: None }.ok());
    assert!(!Outcome::NoInterface.ok());
    assert!(!Outcome::NoNetworks.ok());
    assert!(!Outcome::UnknownProfile("ghost".into()).ok());
    assert!(!Outcome::TailscaleError { ssid: None, health: TsHealth::NotInstalled }.ok());
}

#[test]
fn outcomes_are_logged_by_their_fields() {
    assert_eq!(
        show_outcome(&Outcome::Connected { ssid: "a\"b".into(), note: None }),
        "Connected { ssid: \"a\\\"b\", note: None }"
    );
    assert_eq!(
        show_outcome(&Outcome::TailscaleError {
            ssid: Some("Guest".into()),
            health: TsHealth::Error("boom".into()),
        }),
        "TailscaleError { ssid: Some(\"Guest\"), health: Error(\"boom\") }"
    );
    assert_eq!(
        show_outcome(&Outcome::TailscaleError { ssid: None, health: TsHealth::Healthy }),
        "TailscaleError { ssid: None, health: Ok }"
    );
    assert_eq!(show_outcome(&Outcome::NoInterface), "NoInterface");
    assert_eq!(show_outcome(&Outcome::NoNetworks), "NoNetworks");
    assert_eq!(show_outcome(&Outcome::UnknownProfile("g".into())), "UnknownProfile(\"g\")");
}

#[test]
fn the_seen_go_by_signal_and_ties_by_priority() {
    let cands = vec![net("A"), net("B"), net("C"), net("D")];
    let seen = signals(&[("D", 50), ("B", 90), ("A", 50)]);
    assert_eq!(
        turns(&cands, &seen),
        vec![("B".to_string(), false), ("A".to_string(), false), ("D".to_string(), false)]
    );
    assert_eq!(find_signal(&seen, "B"), Some(90));
    assert_eq!(find_signal(&seen, "C"), None);
}

#[test]
fn hidden_networks_come_last_and_only_unseen_ones() {
    let cands = vec![hidden("H1"), net("Gone"), net("Seen"), hidden("H2"), hidden("H3")];
    let seen = signals(&[("Seen", 10), ("H2", 70)]);
    assert_eq!(
        turns(&cands, &seen),
        vec![
            ("H2".to_string(), false),
            ("Seen".to_string(), false),
            ("H1".to_string(), true),
            ("H3".to_string(), true),
        ]
    );
    assert!(turns(&vec![net("Gone")], &seen).is_empty());
}

#[test]
fn a_used_password_is_cleared_and_others_stay() {
    let mut c = cfg();
    let files = clear_password_if_used(&mut c, "WorkNet").unwrap();
    assert_eq!(c.network("WorkNet").unwrap().password, None);
    assert_eq!(c.network("HomeWifi").unwrap().password.as_deref(), Some("x"));
    assert!(c.settings.core_profiles_initialized);
    assert!(files.main.networks.is_empty());
    assert_eq!(files.networks[1].password, None);
    // Nothing is left to clear, so nothing is to be saved.
    assert!(clear_password_if_used(&mut c, "WorkNet").is_none());
    assert!(clear_password_if_used(&mut c, "Nowhere").is_none());
}

#[test]
fn landing_elsewhere_is_an_error() {
    assert_eq!(check_landed(&Some("A".to_string()), "A"), Ok(()));
    assert_eq!(
        check_landed(&Some("B".to_string()), "A"),
        Err("device is connected to B instead".to_string())
    );
    // Where the SSID cannot be read, the connect is taken at its word.
    assert_eq!(check_landed(&None, "A"), Ok(()));
}

#[test]
fn an_unknown_profile_ends_the_flow_at_once() {
    let mut says: Vec<Say> = Vec::new();
    let (flow, ask) = Flow::start(cfg(), "ghost", true, &mut says);
    assert!(matches!(ask, Ask::Finish(Outcome::UnknownProfile(p)) if p == "ghost"));
    assert!(says.iter().all(|s| matches!(s, Say::Log(_))));
    assert_eq!(flow.config().networks.len(), 4);

    let mut loud: Vec<Say> = Vec::new();
    let _ = Flow::start(cfg(), "ghost", false, &mut loud);
    assert!(loud.iter().any(|s| matches!(s, Say::Notify(_, _, _))));
}

/// Answers a flow on a machine that sees `seen` and can join all of `joins`.
fn drive(
    c: Config,
    name: &str,
    seen: &[(&str, i32)],
    joins: &[&str],
    health: TsHealth,
) -> (Outcome, Config, Vec<String>) {
    let mut says: Vec<Say> = Vec::new();
    let (mut flow, mut ask) = Flow::start(c, name, true, &mut says);
    let mut dialed: Vec<String> = Vec::new();
    let mut active: Option<String> = None;
    loop {
        let reply = match ask {
            Ask::Interface(_) => Reply::Interface(Some("wlan0".to_string())),
            Ask::RadioOn => Reply::Done,
            Ask::Rescan(_, _) => Reply::Done,
            Ask::Look(_) => Reply::Signals(signals(seen)),
            Ask::Connect { net, .. } => {
                dialed.push(net.ssid.clone());
                if joins.contains(&net.ssid.as_str()) {
                    active = Some(net.ssid);
                    Reply::Connected(Ok(()))
                } else {
                    Reply::Connected(Err("refused".to_string()))
                }
            }
            Ask::DeviceConnected(_) => Reply::Yes(active.is_some()),
            Ask::ActiveSsid(_) => Reply::Ssid(active.clone()),
            Ask::Internet => Reply::Online(Connectivity::Online),
            Ask::EnsureExitNode(_) => Reply::Health(health.clone()),
            Ask::Save(_) => Reply::Saved(Ok(())),
            Ask::Finish(o) => return (o, flow.into_config(), dialed),
        };
        ask = flow.next(reply, &mut says);
    }
}

#[test]
fn the_next_candidate_is_tried_where_one_refuses() {
    let c = with_profile(
        "home",
        Profile { networks: vec!["HomeWifi".into(), "CafeWifi".into()], ..Default::default() },
    );
    let (o, c, dialed) =
        drive(c, "home", &[("HomeWifi", 90), ("CafeWifi", 40)], &["CafeWifi"], TsHealth::Stopped);
    assert!(matches!(o, Outcome::Connected { ssid, .. } if ssid == "CafeWifi"));
    assert_eq!(dialed, vec!["HomeWifi", "CafeWifi"]);
    assert_eq!(c.network("HomeWifi").unwrap().password.as_deref(), Some("x"));
    assert_eq!(c.network("CafeWifi").unwrap().password, None);
}

#[test]
fn a_flow_without_candidates_in_reach_finds_no_networks() {
    let c =
        with_profile("home", Profile { networks: vec!["HomeWifi".into()], ..Default::default() });
    let (o, c, dialed) = drive(c, "home", &[("Other", 90)], &["HomeWifi"], TsHealth::Stopped);
    assert_eq!(o, Outcome::NoNetworks);
    assert!(dialed.is_empty());
    assert_eq!(c.network("HomeWifi").unwrap().password.as_deref(), Some("x"));
}

#[test]
fn without_a_healthy_exit_node_only_bootstrap_is_dialed() {
    let mut c = with_profile(
        "work",
        Profile {
            bootstrap: Some("CafeWifi".into()),
            networks: vec!["WorkNet".into()],
            tailscale: true,
            ..Default::default()
        },
    );
    c.settings.exit_node = "exit".into();
    let seen = [("CafeWifi", 50), ("WorkNet", 90)];
    let (o, _, dialed) =
        drive(c, "work", &seen, &["CafeWifi", "WorkNet"], TsHealth::ExitNodeOffline);
    assert_eq!(
        o,
        Outcome::TailscaleError {
            ssid: Some("CafeWifi".into()),
            health: TsHealth::ExitNodeOffline
        }
    );
    assert_eq!(dialed, vec!["CafeWifi"]);
}

#[test]
fn learning_stops_at_its_bound() {
    let mut p = Profile { networks: vec!["HomeWifi".into()], learn: true, ..Default::default() };
    for i in 0..MAX_LEARNED {
        p.detect_ssids.push(format!("Net{i}"));
    }
    let (o, c, _) = drive(
        with_profile("home", p),
        "home",
        &[("HomeWifi", 90)],
        &["HomeWifi"],
        TsHealth::Stopped,
    );
    assert!(o.ok());
    assert_eq!(c.profile("home").unwrap().detect_ssids.len(), MAX_LEARNED);

    let known = Profile {
        networks: vec!["HomeWifi".into()],
        detect_ssids: vec!["HomeWifi".into()],
        learn: true,
        ..Default::default()
    };
    let (_, c, _) = drive(
        with_profile("home", known),
        "home",
        &[("HomeWifi", 90)],
        &["HomeWifi"],
        TsHealth::Stopped,
    );
    assert_eq!(ssids(&c.networks).len(), 4);
    assert_eq!(c.profile("home").unwrap().detect_ssids, vec!["HomeWifi".to_string()]);
}
