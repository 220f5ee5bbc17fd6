//! State, bus events, notifications, the log and connectivity.

use std::cell::RefCell;

use breadcrumbs::bread_events::{
    apply_set_profile, emit_health_changed, emit_network_changed, emit_profile_changed,
    emit_tailscale_changed, handle_command, CommandAction, HealthChanged, APP_ID,
};
use breadcrumbs::config::{build_initial_config, Profile};
use breadcrumbs::json::{parse, Json};
use breadcrumbs::notify::{
    cut_log, log_is_full, log_line, notify, notify_entry, Urgency, KEPT_LOG_LINES, MAX_LOG_BYTES,
};
use breadcrumbs::state::{set_profile, State};
use breadcrumbs::status::{
    assemble, connectivity, internet_ok, verdict_by_code, Connectivity, Observation,
};
use breadcrumbs::tailscale::TsHealth;
use breadcrumbs::util::{Output, Runner};

/// Some programs, each with a fixed answer.
struct Programs {
    answers: Vec<(&'static str, Output)>,
    calls: RefCell<Vec<Vec<String>>>,
}

impl Programs {
    fn new(answers: Vec<(&'static str, Output)>) -> Programs {
        Programs { answers, calls: RefCell::new(Vec::new()) }
    }
}

impl Runner for Programs {
    fn run(&self, prog: &str, args: &[&str], _stdin: Option<&str>, _timeout: u64) -> Output {
        let mut call = vec![prog.to_string()];
        call.extend(args.iter().map(|s| s.to_string()));
        self.calls.borrow_mut().push(call);
        match self.answers.iter().find(|(p, _)| *p == prog) {
            Some((_, o)) => o.clone(),
            None => Output::failed(),
        }
    }

    fn command_exists(&self, name: &str) -> bool {
        self.answers.iter().any(|(p, _)| *p == name)
    }
}

fn ok(stdout: &str) -> Output {
    Output { success: true, stdout: stdout.to_string(), stderr: String::new() }
}

fn json(s: &str) -> Json {
    parse(s).unwrap()
}

#[test]
fn a_profile_that_was_set_is_active() {
    let cfg = build_initial_config();
    let (state, line) = set_profile(&cfg, "home", "2024-01-01 00:00:00".into()).unwrap();
    assert_eq!(state.profile, "home");
    assert_eq!(state.updated, "2024-01-01 00:00:00");
    assert!(line.contains("home"), "{line}");
    assert_eq!(State::load(Some(state), "away").profile, "home");
    assert_eq!(State::load(None, "away").profile, "away");
}

#[test]
fn an_unknown_profile_is_refused_with_the_known_ones() {
    let cfg = build_initial_config();
    let err = set_profile(&cfg, "bogus", String::new()).unwrap_err();
    assert!(err.contains("unknown profile"), "{err}");
    assert!(err.contains("home") && err.contains("work") && err.contains("away"));
}

#[test]
fn events_carry_what_changed() {
    assert_eq!(APP_ID, "crumbs");
    let e = emit_profile_changed("a", "b");
    assert_eq!(e.name, "bread.crumbs.profile.changed");
    assert_eq!(e.data, json(r#"{"from":"a","to":"b"}"#));
    let e = emit_network_changed(None, Some("Cafe"), "home");
    assert_eq!(e.name, "bread.crumbs.network.changed");
    assert_eq!(e.data.get("from"), Some(&Json::Null));
    assert_eq!(e.data.get_str("to"), Some("Cafe"));
    assert_eq!(e.data.get_str("profile"), Some("home"));
    let e = emit_tailscale_changed("home", Some("Ok"), "exit");
    assert_eq!(e.name, "bread.crumbs.tailscale.changed");
    assert_eq!(e.data.get_str("state"), Some("Ok"));
    assert_eq!(e.data.get_str("exit_node"), Some("exit"));
    let e = emit_health_changed(HealthChanged {
        profile: "home",
        health: "Up",
        ssid: Some("Cafe"),
        iface: Some("wlan0"),
        ip: None,
        exit_node: "exit",
        tailscale: None,
    });
    assert_eq!(e.name, "bread.crumbs.health.changed");
    assert_eq!(e.data.get_str("health"), Some("Up"));
    assert_eq!(e.data.get("ip"), Some(&Json::Null));
}

#[test]
fn commands_are_understood_or_answered() {
    let h = handle_command("bread.command.crumbs.set_profile", &json(r#"{"profile":"home"}"#));
    assert_eq!(h.action, CommandAction::SetProfile("home".into()));
    // Without a profile the failure is published.
    let h = handle_command("bread.command.crumbs.set_profile", &json("{}"));
    assert_eq!(h.action, CommandAction::Ignore);
    assert!(h.event.is_some());
    // Another verb is noted and left alone.
    let h = handle_command("bread.command.crumbs.pin", &json("{}"));
    assert_eq!(h.action, CommandAction::Ignore);
    // What is not addressed here says nothing.
    let h = handle_command("bread.command.clip.clear", &json("{}"));
    assert_eq!(h.action, CommandAction::Ignore);
    assert!(h.event.is_none() && h.log.is_none());
}

#[test]
fn an_applied_command_tells_how_it_went() {
    let (line, event) = apply_set_profile("home", &Ok(()));
    assert!(line.contains("home"), "{line}");
    let (other, failed) = apply_set_profile("home", &Err("no such".into()));
    assert!(other.contains("no such"), "{other}");
    assert_ne!(event, failed);
}

#[test]
fn notifications_reach_the_program_and_the_log() {
    let p = Programs::new(vec![("notify-send", ok(""))]);
    let entry = notify(&p, "Hello", "World", Urgency::Critical);
    assert_eq!(entry, notify_entry("Hello", "World", Urgency::Critical));
    let calls = p.calls.borrow();
    assert_eq!(calls.len(), 1);
    assert_eq!(calls[0][0], "notify-send");
    for part in ["critical", "Hello", "World"] {
        assert!(calls[0].iter().any(|a| a == part), "{part} in {calls:?}");
    }
    // Without the program only the entry is left.
    let none = Programs::new(vec![]);
    assert_eq!(notify(&none, "Hello", "World", Urgency::Low), notify_entry("Hello", "World", Urgency::Low));
    assert!(none.calls.borrow().is_empty());
    assert_eq!(Urgency::Low.as_str(), "low");
    assert_eq!(Urgency::Normal.as_str(), "normal");
}

#[test]
fn a_full_log_is_cut_to_its_last_lines() {
    assert!(!log_is_full(MAX_LOG_BYTES));
    assert!(log_is_full(MAX_LOG_BYTES + 1));
    let mut log = String::new();
    for i in 0..1000 {
        log.push_str(&format!("line {i}\n"));
    }
    let cut = cut_log(&log);
    let lines: Vec<&str> = cut.lines().collect();
    assert_eq!(lines.len(), KEPT_LOG_LINES);
    assert_eq!(lines[0], "line 700");
    assert_eq!(lines[KEPT_LOG_LINES - 1], "line 999");
    assert_eq!(cut_log("a\nb\n").lines().count(), 2);
    let line = log_line("2024-01-01 00:00:00", "hello");
    assert!(line.contains("2024-01-01 00:00:00") && line.contains("hello"));
}

#[test]
fn only_the_expected_answer_counts_as_internet() {
    assert_eq!(verdict_by_code(&ok("204")), Some(Connectivity::Online));
    for code in ["200", "301", "302"] {
        assert_eq!(verdict_by_code(&ok(code)), Some(Connectivity::Portal), "{code}");
    }
    assert_eq!(verdict_by_code(&Output::failed()), None);
    let cfg = build_initial_config();
    let ping = Programs::new(vec![("ping", ok(""))]);
    assert_eq!(connectivity(&ping, &cfg), Connectivity::Online);
    assert!(internet_ok(&ping, &cfg));
    let none = Programs::new(vec![]);
    assert_eq!(connectivity(&none, &cfg), Connectivity::NoNet);
    let portal = Programs::new(vec![("curl", ok("302")), ("ping", Output::failed())]);
    assert_eq!(connectivity(&portal, &cfg), Connectivity::Portal);
    assert!(!internet_ok(&portal, &cfg));
}

#[test]
fn a_status_is_assembled_from_what_was_seen() {
    let mut cfg = build_initial_config();
    cfg.settings.exit_node = "exit".into();
    cfg.profiles.insert("ts".into(), Profile { tailscale: true, ..Default::default() });
    let seen = Observation {
        iface: Some("wlan0".into()),
        ssid: Some("Net".into()),
        ip: Some("10.0.0.2".into()),
        connectivity: Connectivity::Portal,
        tailscale: Some(TsHealth::Healthy),
    };
    let s = assemble(&cfg, "ts", seen);
    assert!(s.tailscale_required && s.portal && !s.internet);
    assert_eq!(s.exit_node, "exit");
    assert_eq!(s.ip.as_deref(), Some("10.0.0.2"));
    let none = Observation {
        iface: None,
        ssid: None,
        ip: None,
        connectivity: Connectivity::NoNet,
        tailscale: None,
    };
    assert!(!assemble(&cfg, "home", none).tailscale_required);
}
