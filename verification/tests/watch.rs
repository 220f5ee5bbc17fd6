//! The watch loop: pacing, schedules, announcements and recovery.

use std::time::Instant;

use breadcrumbs::config::{build_initial_config, Profile, ScheduleEntry};
use breadcrumbs::flow::{Outcome, Say};
use breadcrumbs::notify::Urgency;
use breadcrumbs::status::{Connectivity, Observation};
use breadcrumbs::tailscale::TsHealth;
use breadcrumbs::util::{Output, Runner};
use breadcrumbs::watch::{
    classify_observed, debounce_ready, greet, initial, is_interesting, recovery_due,
    scheduled_for, scheduled_profile_now, tells_loss, wait_for_tick, Classification, Effects,
    Health, Wake, Watch, FLOW_COOLDOWN, SCHEDULE_GRACE, SECOND,
};

fn class(health: Health, ssid: Option<&str>) -> Classification {
    Classification {
        health,
        ssid: ssid.map(str::to_string),
        iface: Some("wlan0".to_string()),
        ip: None,
        tailscale: None,
        exit_node: String::new(),
    }
}

fn logs(e: &Effects) -> Vec<&str> {
    e.says
        .iter()
        .filter_map(|s| match s {
            Say::Log(l) => Some(l.as_str()),
            Say::Notify(_, _, _) => None,
        })
        .collect()
}

fn notes(e: &Effects) -> Vec<(&str, &str, Urgency)> {
    e.says
        .iter()
        .filter_map(|s| match s {
            Say::Notify(summary, body, u) => Some((summary.as_str(), body.as_str(), *u)),
            Say::Log(_) => None,
        })
        .collect()
}

fn events(e: &Effects) -> Vec<&str> {
    e.events.iter().map(|ev| ev.name.as_str()).collect()
}

#[test]
fn debounce_fires_immediately_when_never_fired() {
    // A signal that never fired must fire without any subtraction on the clock.
    assert!(debounce_ready(None, 1_500_000_000));
}

#[test]
fn debounce_suppresses_immediately_after_firing() {
    let just_now = Instant::now();
    assert!(!debounce_ready(Some(just_now.elapsed().as_nanos()), 3_600_000_000_000));
}

#[test]
fn debounce_fires_again_after_gap_elapses() {
    // A zero gap is over as soon as the clock has moved, so a prior fire doesn't
    // block.
    let earlier = Instant::now();
    while earlier.elapsed().as_nanos() == 0 {}
    assert!(debounce_ready(Some(earlier.elapsed().as_nanos()), 0));
}

#[test]
fn health_as_str_is_the_variant_name() {
    assert_eq!(Health::Up.as_str(), "Up");
    assert_eq!(Health::DownNoNet.as_str(), "DownNoNet");
    assert_eq!(Health::DownTailscaleManual.as_str(), "DownTailscaleManual");
    assert_eq!(Health::DownTailscaleOther.as_str(), "DownTailscaleOther");
    assert_eq!(Health::NoAdapter.as_str(), "NoAdapter");
    assert_eq!(Health::UnknownProfile.as_str(), "UnknownProfile");
    assert_eq!(Health::CaptivePortal.as_str(), "CaptivePortal");
}

#[test]
fn wait_for_tick_returns_pending_set_profile_and_drains_churn() {
    // A queued set_profile is an action, not a signal: it must survive the
    // churn-burst drain and be returned to the loop.
    let burst = vec![Wake::LinkChurn, Wake::SetProfile("home".into()), Wake::LinkChurn];
    let wake = wait_for_tick(&burst);
    assert!(matches!(wake, Some(Wake::SetProfile(n)) if n == "home"));
}

#[test]
fn wait_for_tick_drains_churn_burst_without_action() {
    // A burst of monitor signals collapses to one wake with no action.
    let burst = vec![Wake::LinkChurn, Wake::LinkChurn, Wake::LinkChurn];
    assert!(wait_for_tick(&burst).is_none());
}

#[test]
fn wait_for_tick_times_out_with_no_signal() {
    assert!(wait_for_tick(&Vec::new()).is_none());
}

#[test]
fn recovery_due_fires_when_never_run_and_after_cooldown() {
    // Never run: due immediately.
    assert!(recovery_due(None, 20));
    // Just ran: not due again yet.
    assert!(!recovery_due(Some(0), 20));
    // A zero cooldown is always already-elapsed.
    assert!(recovery_due(Some(0), 0));
    assert!(recovery_due(Some(20), 20));
}

#[test]
fn of_two_actions_the_earlier_one_is_kept() {
    let burst = vec![Wake::SetProfile("home".into()), Wake::SetProfile("work".into())];
    assert_eq!(wait_for_tick(&burst), Some(Wake::SetProfile("home".into())));
}

#[test]
fn lines_of_the_monitor() {
    assert!(is_interesting("wlan0: Disconnected"));
    assert!(is_interesting("Connectivity is now 'limited'"));
    assert!(is_interesting("wlan0: UNAVAILABLE"));
    assert!(is_interesting("wlan0: deactivating"));
    assert!(is_interesting("wlan0: connection failed"));
    assert!(!is_interesting("wlan0: connected"));
    assert!(tells_loss("it failed"));
    assert!(!tells_loss("it FAILED"));
}

struct Clock(&'static str);

impl Runner for Clock {
    fn run(&self, prog: &str, args: &[&str], _stdin: Option<&str>, _timeout: u64) -> Output {
        assert_eq!((prog, args), ("date", &["+%H:%M"][..]));
        Output { success: true, stdout: self.0.to_string(), stderr: String::new() }
    }

    fn command_exists(&self, _name: &str) -> bool {
        true
    }
}

#[test]
fn the_schedule_goes_by_the_local_time() {
    let mut cfg = build_initial_config();
    cfg.settings.schedule =
        vec![ScheduleEntry { profile: "work".into(), from: "09:00".into(), to: "17:00".into() }];
    assert_eq!(scheduled_profile_now(&Clock("10:30\n"), &cfg), Some("work".to_string()));
    assert_eq!(scheduled_profile_now(&Clock("18:00\n"), &cfg), None);
    assert_eq!(scheduled_profile_now(&Clock(""), &cfg), None);
    assert_eq!(scheduled_for(&cfg, &Some("nonsense".to_string())), None);
    assert_eq!(scheduled_for(&cfg, &None), None);
}

#[test]
fn an_observation_is_classified() {
    let mut cfg = build_initial_config();
    cfg.profiles.insert("ts".into(), Profile { tailscale: true, ..Default::default() });
    cfg.settings.exit_node = "exit".into();
    let seen = |c: Connectivity, h: Option<TsHealth>| Observation {
        iface: Some("wlan0".into()),
        ssid: Some("Net".into()),
        ip: Some("10.0.0.2".into()),
        connectivity: c,
        tailscale: h,
    };
    let health = |p: &str, o: Observation| classify_observed(&cfg, p, o).health;
    assert_eq!(health("home", seen(Connectivity::Online, None)), Health::Up);
    assert_eq!(health("home", seen(Connectivity::NoNet, None)), Health::DownNoNet);
    assert_eq!(health("home", seen(Connectivity::Portal, None)), Health::CaptivePortal);
    for (h, expected) in [
        (TsHealth::Healthy, Health::Up),
        (TsHealth::NotInstalled, Health::DownTailscaleManual),
        (TsHealth::NeedsLogin, Health::DownTailscaleManual),
        (TsHealth::NoExitNode, Health::DownTailscaleManual),
        (TsHealth::Stopped, Health::DownTailscaleOther),
        (TsHealth::ExitNodeMissing, Health::DownTailscaleOther),
        (TsHealth::ExitNodeOffline, Health::DownTailscaleOther),
        (TsHealth::Error("x".into()), Health::DownTailscaleOther),
    ] {
        assert_eq!(health("ts", seen(Connectivity::Online, Some(h))), expected);
    }
    let c = classify_observed(&cfg, "ts", seen(Connectivity::Online, Some(TsHealth::Healthy)));
    assert_eq!(c.ip.as_deref(), Some("10.0.0.2"));
    assert_eq!(c.exit_node, "exit");
}

#[test]
fn the_wait_grows_with_failures_up_to_a_limit() {
    let mut w = Watch::new(1, "home", 0);
    assert_eq!(w.end(0), 4); // the least interval
    let mut w = Watch::new(10, "home", 0);
    let mut waits: Vec<u64> = Vec::new();
    for _ in 0..7 {
        let _ = w.react(&class(Health::NoAdapter, None), 0);
        waits.push(w.end(0));
    }
    assert_eq!(waits, vec![20, 30, 40, 50, 60, 60, 60]);
    let _ = w.react(&class(Health::Up, Some("A")), 0);
    assert_eq!(w.end(0), 10);
}

#[test]
fn a_lasting_loss_is_announced_once_and_mended_at_a_pace() {
    let mut w = Watch::new(12, "home", 0);
    let (e, run) = w.react(&class(Health::DownNoNet, Some("A")), 0);
    assert!(run);
    assert_eq!(
        notes(&e),
        vec![("breadcrumbs: connection lost", "Recovering (home)…", Urgency::Normal)]
    );
    assert_eq!(
        logs(&e),
        vec!["watch: down (DownNoNet) profile=home ssid=Some(\"A\") — running flow"]
    );
    assert_eq!(events(&e), vec!["bread.crumbs.health.changed", "bread.crumbs.network.changed"]);
    let e = w.recovered(&Outcome::NoNetworks, 0);
    assert_eq!(logs(&e), vec!["watch: recovery outcome = NoNetworks"]);

    // Within the cooldown no flow is run, and nothing is announced again.
    let soon = u128::from(FLOW_COOLDOWN - 1) * SECOND;
    let (e, run) = w.react(&class(Health::DownNoNet, Some("A")), soon);
    assert!(!run);
    assert!(notes(&e).is_empty());
    assert!(events(&e).is_empty());
    assert_eq!(logs(&e), vec!["watch: down (DownNoNet) — cooldown, skipping flow"]);

    let later = u128::from(FLOW_COOLDOWN) * SECOND;
    let (_, run) = w.react(&class(Health::DownNoNet, Some("A")), later);
    assert!(run);
    let e = w.recovered(&Outcome::Connected { ssid: "A".into(), note: None }, later);
    assert_eq!(
        logs(&e),
        vec!["watch: recovery outcome = Connected { ssid: \"A\", note: None }"]
    );
    let (e, run) = w.react(&class(Health::Up, Some("A")), later);
    assert!(!run);
    assert_eq!(notes(&e), vec![("breadcrumbs: back online", "A (home)", Urgency::Low)]);
}

#[test]
fn the_other_states_are_announced_too() {
    let told = |h: Health| {
        let mut w = Watch::new(12, "home", 0);
        let (e, run) = w.react(&class(h, None), 0);
        let n: Vec<(String, Urgency)> =
            notes(&e).into_iter().map(|(s, _, u)| (s.to_string(), u)).collect();
        (n, run)
    };
    assert_eq!(told(Health::Up), (vec![], false));
    assert_eq!(
        told(Health::NoAdapter),
        (vec![("breadcrumbs: no Wi-Fi adapter".to_string(), Urgency::Critical)], false)
    );
    assert_eq!(
        told(Health::UnknownProfile),
        (vec![("breadcrumbs: unknown profile".to_string(), Urgency::Critical)], false)
    );
    assert_eq!(
        told(Health::CaptivePortal),
        (vec![("breadcrumbs: captive portal detected".to_string(), Urgency::Normal)], false)
    );
    assert_eq!(
        told(Health::DownTailscaleManual),
        (vec![("Tailscale Error".to_string(), Urgency::Critical)], true)
    );
    assert_eq!(
        told(Health::DownTailscaleOther),
        (vec![("breadcrumbs: connection lost".to_string(), Urgency::Normal)], true)
    );
}

#[test]
fn a_profile_set_by_hand_holds_the_schedule_back() {
    let mut w = Watch::new(12, "home", 0);
    // The same profile as before: the schedule may switch.
    let _ = w.begin("home", 0);
    let (to, _) = w.schedule("home", &Some("work".to_string()), 0);
    assert_eq!(to.as_deref(), Some("work"));
    let e = w.switched("work".to_string());
    assert_eq!(logs(&e), vec!["watch: schedule applied profile work"]);

    // What the schedule itself set is no reason to hold it back.
    let _ = w.begin("work", SECOND);
    let (to, _) = w.schedule("work", &Some("home".to_string()), SECOND);
    assert_eq!(to.as_deref(), Some("home"));

    // A profile set by hand is.
    let t = 2 * SECOND;
    let _ = w.begin("away", t);
    let (to, e) = w.schedule("away", &Some("work".to_string()), t);
    assert_eq!(to, None);
    assert_eq!(
        logs(&e),
        vec!["watch: schedule would switch to work, but a manual set is still in grace"]
    );
    let over = t + u128::from(SCHEDULE_GRACE) * SECOND;
    let _ = w.begin("away", over);
    let (to, _) = w.schedule("away", &Some("work".to_string()), over);
    assert_eq!(to.as_deref(), Some("work"));
    // Nothing to switch to, or nothing to switch.
    assert_eq!(w.schedule("away", &None, over).0, None);
    assert_eq!(w.schedule("work", &Some("work".to_string()), over).0, None);
}

#[test]
fn another_profile_is_announced_and_looked_at_afresh() {
    let mut w = Watch::new(12, "home", 0);
    let _ = w.react(&class(Health::DownNoNet, Some("A")), 0);
    let _ = w.recovered(&Outcome::NoNetworks, 0);
    assert!(w.see_profile("home").says.is_empty());
    let e = w.see_profile("work");
    assert_eq!(logs(&e), vec!["watch: profile changed home -> work"]);
    assert_eq!(notes(&e), vec![("breadcrumbs: profile changed", "home -> work", Urgency::Low)]);
    assert_eq!(events(&e), vec!["bread.crumbs.profile.changed"]);
    // The cooldown is over, and the state counts as new.
    let (e, run) = w.react(&class(Health::DownNoNet, Some("A")), 0);
    assert!(run);
    assert_eq!(notes(&e).len(), 1);
}

#[test]
fn a_suspension_ends_the_cooldown() {
    let mut w = Watch::new(12, "home", 0);
    let _ = w.react(&class(Health::DownNoNet, None), 0);
    let _ = w.recovered(&Outcome::NoNetworks, 0);
    let _ = w.end(0); // plans a wait of 24 seconds
    let quiet = w.begin("home", 84 * SECOND);
    assert!(quiet.says.is_empty());
    let e = w.begin("home", 84 * SECOND + 1);
    assert_eq!(
        logs(&e),
        vec!["watch: large gap since last tick (suspend/resume?) — forcing recovery check"]
    );
    let (_, run) = w.react(&class(Health::DownNoNet, None), SECOND);
    assert!(run);
}

#[test]
fn the_loop_says_how_it_starts() {
    let e = Effects { says: greet(), events: Vec::new() };
    assert_eq!(
        notes(&e),
        vec![(
            "breadcrumbs watcher started",
            "Monitoring Wi-Fi; will auto-recover drops.",
            Urgency::Low
        )]
    );
    assert_eq!(logs(&e), vec!["watch: started"]);
    assert_eq!(
        initial("home", Health::DownNoNet),
        ("watch: initial flow for profile=home".to_string(), true)
    );
    assert_eq!(
        initial("home", Health::Up),
        (
            "watch: already healthy on start (profile=home); skipping initial flow".to_string(),
            false
        )
    );
}
