//! The rounds of the watch daemon.

use breadcrumbs::daemon::{Ask, Daemon, Reply};
use breadcrumbs::flow::{Outcome, Say};
use breadcrumbs::watch::{Classification, Effects, Health, Wake, SECOND};

fn class(health: Health) -> Reply {
    Reply::Class(Classification {
        health,
        ssid: Some("HomeWifi".to_string()),
        iface: Some("wlan0".to_string()),
        ip: None,
        tailscale: None,
        exit_node: String::new(),
    })
}

fn profile(name: &str) -> Reply {
    Reply::Profile(name.to_string())
}

fn ok() -> Reply {
    Reply::Ended(Outcome::Connected { ssid: "HomeWifi".to_string(), note: None })
}

fn logs(e: &Effects) -> Vec<&str> {
    e.says
        .iter()
        .filter_map(|s| match s {
            Say::Log(l) => Some(l.as_str()),
            Say::Notify(_, _, _) => None,
        })
        .collect()
}

fn events(e: &Effects) -> Vec<&str> {
    e.events.iter().map(|ev| ev.name.as_str()).collect()
}

fn shown(a: &Ask) -> String {
    format!("{a:?}")
}

/// A daemon in its first round, about to classify "home".
fn looking() -> Daemon {
    let (mut d, _, ask) = Daemon::new(30, "home", false, 0);
    assert!(matches!(ask, Ask::Load));
    assert!(matches!(d.next(profile("home"), 0).1, Ask::ReadSchedule));
    assert_eq!(shown(&d.next(Reply::Scheduled(None), 0).1), "Classify(\"home\")");
    d
}

#[test]
fn a_start_on_a_working_connection_runs_no_flow() {
    let (mut d, e, ask) = Daemon::new(30, "home", true, 0);
    assert_eq!(logs(&e), vec!["watch: started"]);
    assert_eq!(shown(&ask), "Classify(\"home\")");
    let (e, ask) = d.next(class(Health::Up), 0);
    assert_eq!(
        logs(&e),
        vec!["watch: already healthy on start (profile=home); skipping initial flow"]
    );
    assert!(matches!(ask, Ask::Load));
}

#[test]
fn a_start_without_a_connection_runs_a_flow() {
    let (mut d, _, _) = Daemon::new(30, "home", true, 0);
    let (e, ask) = d.next(class(Health::DownNoNet), 0);
    assert_eq!(logs(&e), vec!["watch: initial flow for profile=home"]);
    assert_eq!(shown(&ask), "RunFlow(\"home\")");
    // However long that took, the first round does not take it for a suspend.
    let late = 500 * SECOND;
    let (e, ask) = d.next(ok(), late);
    assert!(e.says.is_empty() && e.events.is_empty());
    assert!(matches!(ask, Ask::Load));
    let (e, ask) = d.next(profile("home"), late);
    assert!(e.says.is_empty());
    assert!(matches!(ask, Ask::ReadSchedule));
}

#[test]
fn a_quiet_round_ends_with_a_wait() {
    let mut d = looking();
    let (e, ask) = d.next(class(Health::Up), SECOND);
    assert_eq!(
        events(&e),
        vec!["bread.crumbs.health.changed", "bread.crumbs.network.changed"]
    );
    assert_eq!(shown(&ask), "Wait(30)");
    let (e, ask) = d.next(Reply::Woken(vec![]), 31 * SECOND);
    assert!(e.says.is_empty() && e.events.is_empty());
    assert!(matches!(ask, Ask::Load));
}

#[test]
fn a_lost_connection_is_recovered_once_a_round() {
    let mut d = looking();
    let (_, ask) = d.next(class(Health::DownNoNet), SECOND);
    assert_eq!(shown(&ask), "RunFlow(\"home\")");
    let (e, ask) = d.next(Reply::Ended(Outcome::NoNetworks), 2 * SECOND);
    assert_eq!(logs(&e), vec!["watch: recovery outcome = NoNetworks"]);
    // One failure: twice the interval.
    assert_eq!(shown(&ask), "Wait(60)");
    // A signal right after does not start another flow.
    assert!(matches!(d.next(Reply::Woken(vec![Wake::LinkChurn]), 3 * SECOND).1, Ask::Load));
    let _ = d.next(profile("home"), 3 * SECOND);
    let _ = d.next(Reply::Scheduled(None), 3 * SECOND);
    let (_, ask) = d.next(class(Health::DownNoNet), 3 * SECOND);
    assert!(matches!(ask, Ask::Wait(_)));
}

#[test]
fn the_schedule_switches_before_the_look() {
    let (mut d, _, _) = Daemon::new(30, "home", false, 0);
    let _ = d.next(profile("home"), 0);
    let (e, ask) = d.next(Reply::Scheduled(Some("work".to_string())), 0);
    assert!(e.says.is_empty());
    assert_eq!(shown(&ask), "SetProfile(\"work\")");
    let (e, ask) = d.next(Reply::Switched(true), 0);
    assert_eq!(logs(&e), vec!["watch: schedule applied profile work"]);
    // This round still looks at the profile it was begun with.
    assert_eq!(shown(&ask), "Classify(\"home\")");
    let _ = d.next(class(Health::Up), 0);
    let _ = d.next(Reply::Woken(vec![]), 30 * SECOND);
    let _ = d.next(profile("work"), 30 * SECOND);
    let (e, ask) = d.next(Reply::Scheduled(Some("work".to_string())), 30 * SECOND);
    assert_eq!(logs(&e), vec!["watch: profile changed home -> work"]);
    assert_eq!(events(&e), vec!["bread.crumbs.profile.changed"]);
    assert_eq!(shown(&ask), "Classify(\"work\")");
}

#[test]
fn a_switch_that_fails_is_not_reported() {
    let (mut d, _, _) = Daemon::new(30, "home", false, 0);
    let _ = d.next(profile("home"), 0);
    let _ = d.next(Reply::Scheduled(Some("work".to_string())), 0);
    let (e, ask) = d.next(Reply::Switched(false), 0);
    assert!(e.says.is_empty() && e.events.is_empty());
    assert_eq!(shown(&ask), "Classify(\"home\")");
}

#[test]
fn the_earliest_command_is_carried_out() {
    let mut d = looking();
    let _ = d.next(class(Health::Up), 0);
    let wakes = vec![
        Wake::LinkChurn,
        Wake::SetProfile("work".to_string()),
        Wake::SetProfile("away".to_string()),
    ];
    let (_, ask) = d.next(Reply::Woken(wakes), SECOND);
    assert_eq!(shown(&ask), "Apply(\"work\")");
    let (e, ask) = d.next(Reply::Applied(Ok(())), SECOND);
    assert_eq!(
        logs(&e),
        vec!["watch: profile set via bread.command.crumbs.set_profile -> work"]
    );
    assert_eq!(events(&e), vec!["bread.crumbs.set_profile.done"]);
    assert!(matches!(ask, Ask::Load));
}

#[test]
fn a_command_that_fails_is_answered() {
    let mut d = looking();
    let _ = d.next(class(Health::Up), 0);
    let _ = d.next(Reply::Woken(vec![Wake::SetProfile("bogus".to_string())]), SECOND);
    let (e, ask) = d.next(Reply::Applied(Err("unknown profile".to_string())), SECOND);
    assert_eq!(
        logs(&e),
        vec!["watch: bread.command.crumbs.set_profile failed: unknown profile"]
    );
    assert_eq!(events(&e), vec!["bread.crumbs.set_profile.failed"]);
    assert!(matches!(ask, Ask::Load));
}

#[test]
fn waits_stay_within_six_intervals() {
    let mut d = looking();
    let mut now: u128 = 0;
    let mut waits = Vec::new();
    for _ in 0..8 {
        now += 25 * SECOND;
        let (_, mut ask) = d.next(class(Health::DownNoNet), now);
        if let Ask::RunFlow(_) = ask {
            ask = d.next(Reply::Ended(Outcome::NoNetworks), now).1;
        }
        match ask {
            Ask::Wait(secs) => waits.push(secs),
            other => panic!("{other:?}"),
        }
        let _ = d.next(Reply::Woken(vec![]), now);
        let _ = d.next(profile("home"), now);
        let _ = d.next(Reply::Scheduled(None), now);
    }
    assert_eq!(waits, vec![60, 90, 120, 150, 180, 180, 180, 180]);
}

#[test]
fn an_observation_is_published_before_it_is_said() {
    assert!(class(Health::Up).events_first());
    assert!(!profile("home").events_first());
    assert!(!Reply::Scheduled(None).events_first());
    assert!(!Reply::Switched(true).events_first());
    assert!(!Reply::Applied(Ok(())).events_first());
    assert!(!ok().events_first());
}
