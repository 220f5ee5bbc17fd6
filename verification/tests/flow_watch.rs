//! The connect flow and the classification of health, run against an in-memory
//! NetworkManager and fake programs.

use std::cell::RefCell;
use std::rc::Rc;

use breadcrumbs::backend::Backend;
use breadcrumbs::bread_events::{apply_set_profile, handle_command, CommandAction};
use breadcrumbs::config::{
    build_initial_config, Config, ConfigFiles, NetworkDef, Profile, Settings,
};
use breadcrumbs::dict::Dict;
use breadcrumbs::flow;
use breadcrumbs::json::Json;
use breadcrumbs::nm;
use breadcrumbs::nm::{
    Ask, Call, Connect, Device, Poll, RawAccessPoint, Reply, Setting, SettingsMap,
    AP_FLAG_PRIVACY, DEV_STATE_ACTIVATED, DEV_TYPE_WIFI, SEC_802_1X, SEC_PSK, SEC_SAE,
};
use breadcrumbs::notify;
use breadcrumbs::notify::Urgency;
use breadcrumbs::profiles::Profiles;
use breadcrumbs::state::{set_profile, State};
use breadcrumbs::status;
use breadcrumbs::status::Connectivity;
use breadcrumbs::tailscale;
use breadcrumbs::tailscale::{Login, TsHealth};
use breadcrumbs::util::{Output, Runner};
use breadcrumbs::watch::{classify, Health};

// ---- Programs ----

#[derive(Debug, Clone)]
struct RecordedCall {
    prog: String,
    args: Vec<String>,
}

type Matcher = Box<dyn Fn(&str, &[&str]) -> bool>;

/// A rule-based runner. Rules are tried in order; the first that matches gives
/// the answer. Without one the program fails.
struct FakeRunner {
    rules: Vec<(Matcher, Output)>,
    commands: Vec<String>,
    calls: Rc<RefCell<Vec<RecordedCall>>>,
}

impl FakeRunner {
    fn new() -> Self {
        FakeRunner {
            rules: Vec::new(),
            commands: Vec::new(),
            calls: Rc::new(RefCell::new(Vec::new())),
        }
    }

    fn calls_handle(&self) -> Rc<RefCell<Vec<RecordedCall>>> {
        self.calls.clone()
    }

    fn with_command(mut self, name: &str) -> Self {
        self.commands.push(name.to_string());
        self
    }

    fn on(mut self, matcher: impl Fn(&str, &[&str]) -> bool + 'static, output: Output) -> Self {
        self.rules.push((Box::new(matcher), output));
        self
    }

    fn on_contains(self, prog: &'static str, substr: &'static str, output: Output) -> Self {
        self.on(move |p, args| p == prog && args.join(" ").contains(substr), output)
    }
}

impl Runner for FakeRunner {
    fn run(&self, prog: &str, args: &[&str], _stdin: Option<&str>, _timeout: u64) -> Output {
        self.calls.borrow_mut().push(RecordedCall {
            prog: prog.to_string(),
            args: args.iter().map(|s| s.to_string()).collect(),
        });
        for (matcher, out) in &self.rules {
            if matcher(prog, args) {
                return out.clone();
            }
        }
        Output::failed()
    }

    fn command_exists(&self, name: &str) -> bool {
        self.commands.iter().any(|c| c == name)
    }
}

impl Login for FakeRunner {
    fn login_and_open(&self) {}
}

fn ok(stdout: &str) -> Output {
    Output { success: true, stdout: stdout.to_string(), stderr: String::new() }
}

fn fail(stderr: &str) -> Output {
    Output { success: false, stdout: String::new(), stderr: stderr.to_string() }
}

// ---- NetworkManager ----

enum Security {
    Wpa2,
    Wpa3,
    Enterprise,
}

type Sections = Vec<(String, Vec<(String, Setting)>)>;

fn copy_setting(s: &Setting) -> Setting {
    match s {
        Setting::U8(b) => Setting::U8(*b),
        Setting::Bool(b) => Setting::Bool(*b),
        Setting::Text(t) => Setting::Text(t.clone()),
        Setting::Array(a) => Setting::Array(a.iter().map(copy_setting).collect()),
        Setting::Other(n) => Setting::Other(*n),
    }
}

fn sections_of(s: &SettingsMap) -> Sections {
    s.entries()
        .iter()
        .map(|(name, m)| {
            let values =
                m.entries().iter().map(|(k, v)| (k.clone(), copy_setting(v))).collect();
            (name.clone(), values)
        })
        .collect()
}

fn map_of(s: &Sections) -> SettingsMap {
    Dict::from_entries(
        s.iter()
            .map(|(name, values)| {
                let copied =
                    values.iter().map(|(k, v)| (k.clone(), copy_setting(v))).collect();
                (name.clone(), Dict::from_entries(copied))
            })
            .collect(),
    )
}

fn value_at<'a>(s: &'a Sections, section: &str, key: &str) -> Option<&'a Setting> {
    let values = &s.iter().find(|(n, _)| n == section)?.1;
    values.iter().find(|(k, _)| k == key).map(|(_, v)| v)
}

fn text_at(s: &Sections, section: &str, key: &str) -> Option<String> {
    match value_at(s, section, key) {
        Some(Setting::Text(t)) => Some(t.clone()),
        _ => None,
    }
}

fn list_at(s: &Sections, section: &str, key: &str) -> Option<Vec<String>> {
    match value_at(s, section, key) {
        Some(Setting::Array(a)) => a
            .iter()
            .map(|v| match v {
                Setting::Text(t) => Some(t.clone()),
                _ => None,
            })
            .collect(),
        _ => None,
    }
}

/// An in-memory NetworkManager. It records what is asked of it and which SSIDs
/// were activated, in order.
struct FakeNm {
    interfaces: Vec<String>,
    aps: RefCell<Vec<(String, u8, u32)>>,
    connections: RefCell<Vec<(String, Sections)>>,
    active: RefCell<Option<String>>,
    activated: RefCell<Vec<String>>,
    calls: RefCell<Vec<String>>,
    connect_any: bool,
    land_on: Option<String>,
}

impl FakeNm {
    fn empty() -> FakeNm {
        FakeNm {
            interfaces: Vec::new(),
            aps: RefCell::new(Vec::new()),
            connections: RefCell::new(Vec::new()),
            active: RefCell::new(None),
            activated: RefCell::new(Vec::new()),
            calls: RefCell::new(Vec::new()),
            connect_any: false,
            land_on: None,
        }
    }

    fn with_wifi(ssids: &[(&str, u8)]) -> FakeNm {
        let mut nm = FakeNm::empty();
        nm.interfaces.push("wlan0".to_string());
        for (ssid, strength) in ssids {
            nm.add_ap(ssid, *strength, Security::Wpa2);
        }
        nm
    }

    fn add_ap(&self, ssid: &str, strength: u8, security: Security) {
        let rsn = match security {
            Security::Wpa2 => SEC_PSK,
            Security::Wpa3 => SEC_SAE,
            Security::Enterprise => SEC_802_1X,
        };
        self.aps.borrow_mut().push((ssid.to_string(), strength, rsn));
    }

    fn associate(&self, ssid: &str) {
        self.add_ap(ssid, 80, Security::Wpa2);
        *self.active.borrow_mut() = Some(ssid.to_string());
    }

    fn note(&self, call: &str) {
        self.calls.borrow_mut().push(call.to_string());
    }

    fn devices(&self) -> Vec<Device> {
        self.interfaces
            .iter()
            .map(|i| Device {
                path: format!("/devices/{i}"),
                kind: Some(DEV_TYPE_WIFI),
                interface: Some(i.clone()),
            })
            .collect()
    }

    fn access_points(&self) -> Vec<nm::AccessPoint> {
        let raw = self
            .aps
            .borrow()
            .iter()
            .map(|(ssid, strength, rsn)| RawAccessPoint {
                ssid: ssid.as_bytes().to_vec(),
                strength: *strength,
                flags: AP_FLAG_PRIVACY,
                wpa: 0,
                rsn: *rsn,
            })
            .collect();
        nm::access_points(&raw)
    }

    fn activate(&self, s: &Sections) -> Call {
        let ssid = nm::profile_info(&map_of(s)).ssid.unwrap();
        self.activated.borrow_mut().push(ssid.clone());
        let visible = self.aps.borrow().iter().any(|(a, _, _)| *a == ssid);
        if !visible && !self.connect_any {
            return Call::Failed("no access point".to_string());
        }
        *self.active.borrow_mut() = Some(self.land_on.clone().unwrap_or(ssid));
        Call::Done
    }

    fn connect(&self, iface: &str, net: &NetworkDef, wait: u32, dns: &str) -> Result<(), String> {
        let (mut c, mut ask) = Connect::new(iface, net, wait, dns, [0x42; 16]);
        loop {
            let reply = match ask {
                Ask::OpenBus => Reply::Bus(true),
                Ask::ListDevices => Reply::Devices(self.devices()),
                Ask::ListProfiles => Reply::Profiles(
                    self.connections
                        .borrow()
                        .iter()
                        .map(|(p, s)| (p.clone(), Some(nm::profile_info(&map_of(s)))))
                        .collect(),
                ),
                Ask::ReadSettings(path) => Reply::Settings(
                    self.connections
                        .borrow()
                        .iter()
                        .find(|(p, _)| *p == path)
                        .map(|(_, s)| map_of(s)),
                ),
                Ask::Update(path) => {
                    for (p, s) in self.connections.borrow_mut().iter_mut() {
                        if *p == path {
                            *s = sections_of(c.settings());
                        }
                    }
                    Reply::Called(Call::Done)
                }
                Ask::Activate { profile, .. } => {
                    let all = self.connections.borrow();
                    let (_, s) = all.iter().find(|(p, _)| *p == profile).unwrap();
                    Reply::Called(self.activate(s))
                }
                Ask::AddAndActivate { .. } => {
                    let s = sections_of(c.settings());
                    let call = self.activate(&s);
                    let path = format!("/settings/{}", self.connections.borrow().len());
                    self.connections.borrow_mut().push((path, s));
                    Reply::Called(call)
                }
                Ask::PollDevice(_) => Reply::Polled(Poll::State(DEV_STATE_ACTIVATED), false),
                Ask::FindActive(_) => {
                    let ssid = self.active.borrow().clone();
                    Reply::Path(
                        self.connections
                            .borrow()
                            .iter()
                            .find(|(_, s)| nm::profile_info(&map_of(s)).ssid == ssid)
                            .map(|(p, _)| p.clone()),
                    )
                }
                Ask::Reapply(_) => Reply::Called(Call::Done),
                Ask::Finish(r) => return r,
            };
            ask = c.next(reply);
        }
    }
}

// ---- Both together ----

struct Host {
    nm: FakeNm,
    runner: FakeRunner,
    saved: RefCell<Vec<ConfigFiles>>,
}

fn host(nm: FakeNm, runner: FakeRunner) -> Host {
    Host { nm, runner, saved: RefCell::new(Vec::new()) }
}

impl Backend for Host {
    fn wifi_interface(&self, preferred: Option<&str>) -> Option<String> {
        self.nm.note("devices");
        nm::wifi_interface_preferred(&self.nm.devices(), preferred)
    }

    fn radio_on(&self) {
        self.nm.note("radio");
    }

    fn rescan(&self, _iface: &str, _ssids: &[String]) {
        self.nm.note("rescan");
    }

    fn visible_signals(&self, _iface: &str) -> Vec<(String, i32)> {
        self.nm.note("access points");
        nm::visible_signals(&self.nm.access_points())
    }

    fn active_ssid(&self, _iface: &str) -> Option<String> {
        self.nm.note("active");
        self.nm.active.borrow().clone()
    }

    fn ipv4(&self, _iface: &str) -> Option<String> {
        self.nm.note("address");
        None
    }

    fn device_connected(&self, _iface: &str) -> bool {
        self.nm.note("state");
        self.nm.active.borrow().is_some()
    }

    fn connect(&self, iface: &str, net: &NetworkDef, wait: u32, dns: &str) -> Result<(), String> {
        self.nm.note("connect");
        self.nm.connect(iface, net, wait, dns)
    }

    fn tailscale_installed(&self) -> bool {
        tailscale::installed(&self.runner)
    }

    fn ensure_exit_node(&self, nodes: &[String]) -> TsHealth {
        tailscale::ensure_exit_node(&self.runner, &self.runner, nodes)
    }

    fn tailscale_check(&self, nodes: &[String]) -> TsHealth {
        tailscale::check(&self.runner, nodes)
    }

    fn connectivity(&self, cfg: &Config) -> Connectivity {
        status::connectivity(&self.runner, cfg)
    }

    fn save(&self, files: &ConfigFiles) -> Result<(), String> {
        self.saved
            .borrow_mut()
            .push(ConfigFiles { main: files.main.clone(), networks: files.networks.clone() });
        Ok(())
    }

    fn notify(&self, summary: &str, body: &str, urgency: Urgency) {
        let _ = notify::notify(&self.runner, summary, body, urgency);
    }

    fn log(&self, _line: &str) {}
}

// ---- Configurations and answers ----

fn net(ssid: &str, password: Option<&str>) -> NetworkDef {
    NetworkDef {
        ssid: ssid.to_string(),
        password: password.map(str::to_string),
        dns: None,
        eap: None,
        identity: None,
        ca_cert: None,
        hidden: false,
    }
}

fn hidden_net(ssid: &str, password: Option<&str>) -> NetworkDef {
    NetworkDef {
        ssid: ssid.to_string(),
        password: password.map(str::to_string),
        dns: None,
        eap: None,
        identity: None,
        ca_cert: None,
        hidden: true,
    }
}

fn base_config() -> Config {
    Config { settings: Settings::default(), networks: Vec::new(), profiles: Profiles::new() }
}

/// The programs a successful flow needs: curl (internet check) and nothing else.
fn healthy_runner() -> FakeRunner {
    FakeRunner::new().with_command("curl").on(|prog, _| prog == "curl", ok("204"))
}

/// The programs of the classification tests: internet check + optional tailscale.
fn classify_runner(curl: &str, tailscale_status: Option<&str>) -> FakeRunner {
    let mut r = FakeRunner::new().with_command("curl").on(|p, _| p == "curl", ok(curl));
    if let Some(json) = tailscale_status {
        r = r
            .with_command("tailscale")
            .on(|p, args| p == "tailscale" && args.contains(&"status"), ok(json));
    }
    r
}

fn tailscale_json_ok(exit_node: &str) -> String {
    format!(
        r#"{{"BackendState":"Running","Peer":{{"k1":{{"HostName":"{exit_node}","DNSName":"{exit_node}.ts.net.","Online":true,"ExitNode":true,"ExitNodeOption":true}}}}}}"#
    )
}

fn tailscale_json_missing() -> &'static str {
    r#"{"BackendState":"Running","Peer":{}}"#
}

// ---------------------------------------------------------------------
// flow::run: candidate priority
// ---------------------------------------------------------------------

#[test]
fn flow_run_connects_to_first_visible_candidate_in_priority_order() {
    let h = host(FakeNm::with_wifi(&[("First", 80), ("Second", 80)]), healthy_runner());

    let mut cfg = base_config();
    cfg.networks = vec![net("First", Some("pw1")), net("Second", Some("pw2"))];
    cfg.profiles.insert(
        "home".into(),
        Profile { networks: vec!["First".into(), "Second".into()], ..Default::default() },
    );

    let outcome = flow::run(&h, &mut cfg, "home");

    match outcome {
        flow::Outcome::Connected { ssid, note } => {
            assert_eq!(ssid, "First");
            assert_eq!(note, None);
        }
        other => panic!("expected Connected, got {other:?}"),
    }

    // Priority order actually mattered: "Second" was never activated even
    // though it was visible and would have succeeded too.
    assert_eq!(
        *h.nm.activated.borrow(),
        vec!["First".to_string()],
        "Second must not be dialed when First wins"
    );

    // The password used for the winning connect is now NetworkManager's
    // problem: cleared and persisted.
    assert_eq!(cfg.network("First").unwrap().password, None);
    assert_eq!(h.saved.borrow().last().unwrap().networks[0].password, None);
    // Never touched, so its password is untouched too.
    assert_eq!(cfg.network("Second").unwrap().password, Some("pw2".to_string()));
}

#[test]
fn flow_run_pass2_falls_back_to_hidden_candidate_not_in_scan() {
    // Nothing is visible; connecting creates the AP on the fly (hidden networks
    // appear only after association).
    let mut nm = FakeNm::with_wifi(&[]);
    nm.connect_any = true;
    let h = host(nm, healthy_runner());

    let mut cfg = base_config();
    // "Ghost" is neither visible nor hidden, so it should never be dialed.
    cfg.networks =
        vec![net("Ghost", Some("pw-ghost")), hidden_net("Shadow", Some("pw-shadow"))];
    cfg.profiles.insert(
        "away".into(),
        Profile { networks: vec!["Ghost".into(), "Shadow".into()], ..Default::default() },
    );

    let outcome = flow::run(&h, &mut cfg, "away");

    match outcome {
        flow::Outcome::Connected { ssid, .. } => assert_eq!(ssid, "Shadow"),
        other => panic!("expected Connected to Shadow, got {other:?}"),
    }
    assert_eq!(
        *h.nm.activated.borrow(),
        vec!["Shadow".to_string()],
        "Ghost must never have been dialed"
    );
}

#[test]
fn flow_run_unknown_profile_short_circuits_before_touching_nm() {
    let h = host(FakeNm::empty(), FakeRunner::new());
    let mut cfg = base_config();

    let outcome = flow::run(&h, &mut cfg, "does-not-exist");

    assert!(matches!(outcome, flow::Outcome::UnknownProfile(p) if p == "does-not-exist"));
    // NetworkManager must never be touched for a profile that doesn't exist (no
    // devices, no scans, no activations).
    assert!(
        h.nm.calls.borrow().is_empty(),
        "unknown-profile path should never call NetworkManager: {:?}",
        h.nm.calls.borrow()
    );
}

// ---------------------------------------------------------------------
// flow::run: bootstrap + Tailscale gating
// ---------------------------------------------------------------------

#[test]
fn flow_run_moves_past_bootstrap_once_tailscale_is_healthy() {
    let mut cfg = base_config();
    cfg.settings.exit_node = "exitnode".into();
    cfg.networks = vec![net("Guest", Some("guest-pw")), net("Corp", Some("corp-pw"))];
    cfg.profiles.insert(
        "work".into(),
        Profile {
            bootstrap: Some("Guest".into()),
            networks: vec!["Corp".into()],
            tailscale: true,
            ..Default::default()
        },
    );

    let runner = healthy_runner()
        .with_command("tailscale")
        .on_contains("tailscale", "status", ok(&tailscale_json_ok("exitnode")))
        .on_contains("tailscale", "set", ok(""));
    let h = host(FakeNm::with_wifi(&[("Guest", 80), ("Corp", 80)]), runner);

    let outcome = flow::run(&h, &mut cfg, "work");

    match outcome {
        flow::Outcome::Connected { ssid, .. } => assert_eq!(ssid, "Corp"),
        other => panic!("expected Connected to Corp, got {other:?}"),
    }
    // Both the bootstrap and target connects used a local password, so both
    // should have been cleared once NetworkManager took over.
    assert_eq!(cfg.network("Guest").unwrap().password, None);
    assert_eq!(cfg.network("Corp").unwrap().password, None);

    assert_eq!(
        *h.nm.activated.borrow(),
        vec!["Guest".to_string(), "Corp".to_string()],
        "bootstrap must be dialed before the target"
    );
}

#[test]
fn flow_run_stays_on_bootstrap_and_never_dials_target_when_tailscale_unhealthy() {
    let mut cfg = base_config();
    cfg.settings.exit_node = "exitnode".into();
    cfg.networks = vec![net("Guest", Some("guest-pw")), net("Corp", Some("corp-pw"))];
    cfg.profiles.insert(
        "work".into(),
        Profile {
            bootstrap: Some("Guest".into()),
            networks: vec!["Corp".into()],
            tailscale: true,
            ..Default::default()
        },
    );

    let runner = healthy_runner()
        .with_command("tailscale")
        .on(|p, args| p == "tailscale" && args.contains(&"status"), ok(tailscale_json_missing()))
        .on(|p, args| p == "tailscale" && args.contains(&"set"), ok(""));
    let h = host(FakeNm::with_wifi(&[("Guest", 80), ("Corp", 80)]), runner);

    let outcome = flow::run(&h, &mut cfg, "work");

    match &outcome {
        flow::Outcome::TailscaleError { ssid, health } => {
            assert_eq!(ssid.as_deref(), Some("Guest"));
            assert_eq!(*health, TsHealth::ExitNodeMissing);
        }
        other => panic!("expected TailscaleError, got {other:?}"),
    }

    assert_eq!(
        *h.nm.activated.borrow(),
        vec!["Guest".to_string()],
        "target network must never be dialed while Tailscale is unhealthy"
    );
    // The bootstrap connect *did* use a password and succeeded, so it's cleared
    // even though the overall flow ends in an error.
    assert_eq!(cfg.network("Guest").unwrap().password, None);
}

// ---------------------------------------------------------------------
// watch::classify: health-state transitions
// ---------------------------------------------------------------------

#[test]
fn classify_reports_unknown_profile_without_touching_nm() {
    let cfg = base_config(); // no profiles at all
    let runner = FakeRunner::new();
    let calls = runner.calls_handle();
    let h = host(FakeNm::empty(), runner);
    let class = classify(&h, &cfg, "ghost");

    assert_eq!(class.health, Health::UnknownProfile);
    assert_eq!(class.ssid, None);
    assert!(calls.borrow().is_empty());
    assert!(
        h.nm.calls.borrow().is_empty(),
        "unknown-profile classify must not touch NetworkManager"
    );
}

#[test]
fn classify_reports_no_adapter_when_wifi_interface_absent() {
    let mut cfg = base_config();
    cfg.profiles.insert("away".into(), Profile::default());

    let class = classify(&host(FakeNm::empty(), FakeRunner::new()), &cfg, "away");
    assert_eq!(class.health, Health::NoAdapter);
}

#[test]
fn classify_reports_down_no_net_when_internet_check_fails() {
    let nm = FakeNm::with_wifi(&[]);
    nm.associate("HomeWifi");
    let mut cfg = base_config();
    cfg.profiles.insert("away".into(), Profile::default());

    let runner = FakeRunner::new().on(|prog, _| prog == "curl" || prog == "ping", fail(""));
    let class = classify(&host(nm, runner), &cfg, "away");

    assert_eq!(class.health, Health::DownNoNet);
    assert_eq!(class.ssid, Some("HomeWifi".to_string()));
}

#[test]
fn classify_reports_up_when_healthy_and_tailscale_not_required() {
    let nm = FakeNm::with_wifi(&[]);
    nm.associate("HomeWifi");
    let mut cfg = base_config();
    cfg.profiles.insert("home".into(), Profile::default()); // tailscale: false

    let class = classify(&host(nm, healthy_runner()), &cfg, "home");

    assert_eq!(class.health, Health::Up);
    assert_eq!(class.ssid, Some("HomeWifi".to_string()));
}

#[test]
fn classify_reports_down_tailscale_manual_when_not_installed() {
    let nm = FakeNm::with_wifi(&[]);
    nm.associate("CorpWifi");
    let mut cfg = base_config();
    cfg.profiles.insert("work".into(), Profile { tailscale: true, ..Default::default() });

    // No `with_command("tailscale")`, so Tailscale is not installed.
    let class = classify(&host(nm, healthy_runner()), &cfg, "work");

    assert_eq!(class.health, Health::DownTailscaleManual);
}

#[test]
fn classify_reports_down_tailscale_manual_when_needs_login() {
    let nm = FakeNm::with_wifi(&[]);
    nm.associate("CorpWifi");
    let mut cfg = base_config();
    cfg.profiles.insert("work".into(), Profile { tailscale: true, ..Default::default() });

    let runner = classify_runner("204", Some(r#"{"BackendState":"NeedsLogin"}"#));
    let class = classify(&host(nm, runner), &cfg, "work");

    assert_eq!(class.health, Health::DownTailscaleManual);
}

#[test]
fn classify_reports_down_tailscale_other_when_exit_node_offline() {
    let nm = FakeNm::with_wifi(&[]);
    nm.associate("CorpWifi");
    let mut cfg = base_config();
    cfg.settings.exit_node = "exitnode".into();
    cfg.profiles.insert("work".into(), Profile { tailscale: true, ..Default::default() });

    let json = r#"{"BackendState":"Running","Peer":{"k1":{"HostName":"exitnode","Online":false,"ExitNode":false,"ExitNodeOption":true}}}"#;
    let runner = classify_runner("204", Some(json));
    let class = classify(&host(nm, runner), &cfg, "work");

    assert_eq!(class.health, Health::DownTailscaleOther);
}

#[test]
fn classify_reports_up_when_tailscale_healthy() {
    let nm = FakeNm::with_wifi(&[]);
    nm.associate("CorpWifi");
    let mut cfg = base_config();
    cfg.settings.exit_node = "exitnode".into();
    cfg.profiles.insert("work".into(), Profile { tailscale: true, ..Default::default() });

    let runner = classify_runner("204", Some(&tailscale_json_ok("exitnode")));
    let class = classify(&host(nm, runner), &cfg, "work");

    assert_eq!(class.health, Health::Up);
}

// ---------------------------------------------------------------------
// bread.command.crumbs.set_profile: sets the profile as the CLI does
// ---------------------------------------------------------------------

fn object(entries: Vec<(&str, Json)>) -> Json {
    Json::Object(entries.into_iter().map(|(k, v)| (k.to_string(), v)).collect())
}

fn text(s: &str) -> Json {
    Json::Text(s.to_string())
}

/// The state on disk after setting `name`, with what came of it: a refused
/// profile leaves the file as it was.
fn set_on_disk(cfg: &Config, name: &str, file: State) -> (State, Result<(), String>) {
    match set_profile(cfg, name, "now".to_string()) {
        Ok((state, _)) => (state, Ok(())),
        Err(e) => (file, Err(e)),
    }
}

fn away_on_disk(cfg: &Config) -> State {
    set_profile(cfg, "away", "before".to_string()).unwrap().0
}

#[test]
fn set_profile_command_persists_even_with_no_daemon_reachable() {
    let cfg = Config::load(None, None);
    let file = away_on_disk(&cfg);
    assert_eq!(State::load(Some(file), "away").profile, "away");

    // A command is only parsed and checked; the loop then applies the action.
    let handled = handle_command(
        "bread.command.crumbs.set_profile",
        &object(vec![("profile", text("home"))]),
    );
    assert!(
        matches!(handled.action, CommandAction::SetProfile(n) if n == "home"),
        "a known profile must yield a SetProfile action"
    );
    let (file, result) = set_on_disk(&cfg, "home", away_on_disk(&cfg));
    let _ = apply_set_profile("home", &result);
    assert_eq!(State::load(Some(file), "away").profile, "home");
}

#[test]
fn set_profile_command_rejects_unknown_profile() {
    let cfg = Config::load(None, None);

    let handled = handle_command(
        "bread.command.crumbs.set_profile",
        &object(vec![("profile", text("bogus"))]),
    );
    assert!(matches!(handled.action, CommandAction::SetProfile(n) if n == "bogus"));
    // The rejection happens when the loop applies it: state is untouched and the
    // failure event is emitted.
    let (file, result) = set_on_disk(&cfg, "bogus", away_on_disk(&cfg));
    let _ = apply_set_profile("bogus", &result);
    assert_eq!(
        State::load(Some(file), "away").profile,
        "away",
        "a rejected set_profile must not touch state"
    );
}

#[test]
fn set_profile_command_rejects_missing_profile_field() {
    let handled = handle_command("bread.command.crumbs.set_profile", &object(vec![]));
    assert!(matches!(handled.action, CommandAction::Ignore));
}

#[test]
fn handle_command_ignores_unrecognized_verb() {
    let handled = handle_command("bread.command.crumbs.pin", &object(vec![]));
    assert!(matches!(handled.action, CommandAction::Ignore));
}

#[test]
fn handle_command_ignores_events_outside_its_own_command_namespace() {
    assert!(matches!(
        handle_command("bread.command.clip.clear", &object(vec![])).action,
        CommandAction::Ignore
    ));
    assert!(matches!(
        handle_command(
            "bread.crumbs.profile.changed",
            &object(vec![("from", text("away")), ("to", text("home"))]),
        )
        .action,
        CommandAction::Ignore
    ));
}

// ---------------------------------------------------------------------
// What must not happen
// ---------------------------------------------------------------------

#[test]
fn flow_run_reports_no_exit_node_and_never_clears_selection() {
    // A tailscale profile with no exit node configured must report NoExitNode,
    // and must never run `tailscale set --exit-node=` with an empty value, which
    // would clear the user's current selection.
    let mut cfg = base_config();
    cfg.networks = vec![net("Corp", Some("corp-pw"))];
    cfg.profiles.insert(
        "work".into(),
        Profile { networks: vec!["Corp".into()], tailscale: true, ..Default::default() },
    );

    let runner = FakeRunner::new().with_command("tailscale");
    let calls = runner.calls_handle();
    let h = host(FakeNm::with_wifi(&[("Corp", 80)]), runner);
    let outcome = flow::run(&h, &mut cfg, "work");

    match &outcome {
        flow::Outcome::TailscaleError { health, .. } => {
            assert_eq!(*health, TsHealth::NoExitNode);
        }
        other => panic!("expected TailscaleError(NoExitNode), got {other:?}"),
    }
    assert!(
        !calls.borrow().iter().any(|c| c.prog == "tailscale"),
        "with no exit node configured, tailscale must not be touched: {:?}",
        calls.borrow()
    );
    assert!(
        h.nm.activated.borrow().is_empty(),
        "with no exit node configured, no network must be dialed: {:?}",
        h.nm.activated.borrow()
    );
}

#[test]
fn classify_reports_down_tailscale_manual_when_no_exit_node_configured() {
    // An unset exit node needs human action (config edit), so it must classify
    // as DownTailscaleManual, not DownTailscaleOther.
    let nm = FakeNm::with_wifi(&[]);
    nm.associate("CorpWifi");
    let mut cfg = base_config();
    cfg.profiles.insert("work".into(), Profile { tailscale: true, ..Default::default() });

    let runner = classify_runner("204", None).with_command("tailscale");
    let class = classify(&host(nm, runner), &cfg, "work");

    assert_eq!(class.health, Health::DownTailscaleManual);
    assert_eq!(class.ssid, Some("CorpWifi".to_string()));
}

#[test]
fn ensure_exit_node_attempts_to_start_unreachable_daemon() {
    // `tailscale status --json` with empty stdout is the "daemon not running"
    // signature (the error goes to stderr). `tailscale up` must be tried and the
    // status re-read instead of bailing out with an opaque error.
    let runner = FakeRunner::new()
        .with_command("tailscale")
        .on(|p, args| p == "tailscale" && args.contains(&"status"), ok(""))
        .on(|p, args| p == "tailscale" && args.contains(&"up"), ok(""));
    let calls = runner.calls_handle();
    let health = tailscale::ensure_exit_node(&runner, &runner, &["exitnode".to_string()]);
    assert!(
        matches!(health, TsHealth::Error(_)),
        "daemon still unreachable after `up`: Error, got {health:?}"
    );
    let tailscale_calls: Vec<String> = calls
        .borrow()
        .iter()
        .filter(|c| c.prog == "tailscale")
        .map(|c| c.args.join(" "))
        .collect();
    assert!(
        tailscale_calls.iter().any(|c| c.starts_with("up")),
        "must attempt `tailscale up` when the daemon is unreachable: {tailscale_calls:?}"
    );
}

#[test]
fn flow_run_fails_when_device_lands_on_wrong_ssid() {
    // Autoconnect race: the connect succeeds but the device ends up on a
    // *different* network than requested. The flow must not report Connected to
    // the requested SSID, and must not clear its password.
    let mut nm = FakeNm::with_wifi(&[("First", 80), ("OtherNet", 90)]);
    nm.land_on = Some("OtherNet".to_string());
    let h = host(nm, healthy_runner());

    let mut cfg = base_config();
    cfg.networks = vec![net("First", Some("pw1"))];
    cfg.profiles.insert(
        "home".into(),
        Profile { networks: vec!["First".into()], ..Default::default() },
    );

    let outcome = flow::run(&h, &mut cfg, "home");

    assert!(
        !matches!(outcome, flow::Outcome::Connected { .. }),
        "must not report Connected when the device is on a different SSID: {outcome:?}"
    );
    assert_eq!(
        cfg.network("First").unwrap().password,
        Some("pw1".to_string()),
        "password must not be cleared for a network that was never joined"
    );
}

#[test]
fn run_quiet_suppresses_notifications_that_run_emits() {
    // The watch loop runs quietly so a persistent failure doesn't re-notify on
    // every retry; the CLI keeps the notifications.
    let mut cfg = base_config(); // no profiles: the UnknownProfile path notifies

    let runner = FakeRunner::new().with_command("notify-send");
    let calls = runner.calls_handle();
    let _ = flow::run_quiet(&host(FakeNm::empty(), runner), &mut cfg, "ghost");
    assert!(
        !calls.borrow().iter().any(|c| c.prog == "notify-send"),
        "run_quiet must not fire desktop notifications: {:?}",
        calls.borrow()
    );

    let runner = FakeRunner::new().with_command("notify-send");
    let calls = runner.calls_handle();
    let _ = flow::run(&host(FakeNm::empty(), runner), &mut cfg, "ghost");
    assert!(
        calls.borrow().iter().any(|c| c.prog == "notify-send"),
        "run (CLI path) must still notify: {:?}",
        calls.borrow()
    );
}

#[test]
fn internet_ok_requires_204_and_falls_back_to_ping() {
    // Only 204 counts as internet: captive/guest portals answer 200/301/302 with
    // a login page or redirect, so those must not report healthy.
    let cfg = base_config();

    let r = FakeRunner::new().with_command("curl").on(|p, _| p == "curl", ok("204"));
    assert!(status::internet_ok(&r, &cfg));

    for code in ["200", "301", "302"] {
        let r = FakeRunner::new()
            .with_command("curl")
            .on(|p, _| p == "curl", ok(code))
            .on(|p, _| p == "ping", fail(""));
        assert!(!status::internet_ok(&r, &cfg), "{code} must not count as internet");
    }

    // curl absent: the ping fallback decides.
    let r = FakeRunner::new().with_command("ping").on(|p, _| p == "ping", ok(""));
    assert!(status::internet_ok(&r, &cfg));
}

#[test]
fn scan_list_dedups_by_ssid_keeping_strongest_signal() {
    // One entry per SSID, at its strongest signal (not the first, possibly weak,
    // listing). Hidden (empty-SSID) APs are skipped.
    let fake = FakeNm::with_wifi(&[]);
    fake.add_ap("Cafe", 40, Security::Wpa2);
    fake.add_ap("Cafe", 80, Security::Wpa2);
    fake.add_ap("Office", 60, Security::Wpa3);
    fake.add_ap("Cafe", 90, Security::Wpa2);

    let list = nm::scan_list(&fake.access_points());
    assert_eq!(list.len(), 2, "dedup by SSID: {list:?}");
    let cafe = list.iter().find(|e| e.ssid == "Cafe").unwrap();
    assert_eq!(cafe.signal, "90", "strongest signal wins");
    let office = list.iter().find(|e| e.ssid == "Office").unwrap();
    assert_eq!(office.signal, "60");
    assert_eq!(office.security, "WPA3");
}

// ---------------------------------------------------------------------
// Signal-aware selection, per-network DNS, learning, captive portals,
// exit-node failover, preferred interface, enterprise (802.1x) connect
// ---------------------------------------------------------------------

#[test]
fn flow_run_prefers_strongest_visible_signal_over_priority_order() {
    // "Weak" is listed first (higher priority), but "Strong" has the better
    // signal: signal-aware selection must dial Strong first.
    let h = host(FakeNm::with_wifi(&[("Weak", 40), ("Strong", 90)]), healthy_runner());

    let mut cfg = base_config();
    cfg.networks = vec![net("Weak", Some("pw1")), net("Strong", Some("pw2"))];
    cfg.profiles.insert(
        "home".into(),
        Profile { networks: vec!["Weak".into(), "Strong".into()], ..Default::default() },
    );

    let outcome = flow::run(&h, &mut cfg, "home");
    match &outcome {
        flow::Outcome::Connected { ssid, .. } => assert_eq!(ssid, "Strong"),
        other => panic!("expected Connected to Strong, got {other:?}"),
    }

    assert_eq!(
        *h.nm.activated.borrow(),
        vec!["Strong".to_string()],
        "the stronger network must be dialed, and only it"
    );
}

#[test]
fn flow_run_pins_per_network_dns_override() {
    let h = host(FakeNm::with_wifi(&[("Home", 80)]), healthy_runner());

    let mut cfg = base_config();
    cfg.settings.dns = "1.1.1.1".into();
    let mut def = net("Home", Some("pw"));
    def.dns = Some("9.9.9.9".into());
    cfg.networks = vec![def];
    cfg.profiles.insert(
        "home".into(),
        Profile { networks: vec!["Home".into()], ..Default::default() },
    );

    let outcome = flow::run(&h, &mut cfg, "home");
    assert!(matches!(outcome, flow::Outcome::Connected { .. }));

    // The DNS-pinned profile must carry the per-network override, not the global
    // 1.1.1.1.
    let all = h.nm.connections.borrow();
    let (_, conn) = all.first().expect("a profile was saved");
    assert_eq!(list_at(conn, "ipv4", "dns"), Some(vec!["9.9.9.9".to_string()]));
}

#[test]
fn flow_run_appends_learned_ssid_to_detect_ssids() {
    let h = host(FakeNm::with_wifi(&[("Home", 80)]), healthy_runner());

    let mut cfg = base_config();
    cfg.networks = vec![net("Home", Some("pw"))];
    cfg.profiles.insert(
        "home".into(),
        Profile { networks: vec!["Home".into()], learn: true, ..Default::default() },
    );

    let outcome = flow::run(&h, &mut cfg, "home");
    assert!(matches!(outcome, flow::Outcome::Connected { .. }));

    assert_eq!(
        cfg.profile("home").unwrap().detect_ssids,
        vec!["Home".to_string()],
        "a successful connect on a learn=true profile must record the SSID"
    );
}

#[test]
fn classify_reports_captive_portal_when_connectivity_returns_200() {
    let nm = FakeNm::with_wifi(&[]);
    nm.associate("HomeWifi");
    let mut cfg = base_config();
    cfg.profiles.insert("home".into(), Profile::default());

    let runner = classify_runner("200", None);
    let class = classify(&host(nm, runner), &cfg, "home");

    assert_eq!(class.health, Health::CaptivePortal);
    assert_eq!(class.ssid, Some("HomeWifi".to_string()));
}

#[test]
fn ensure_exit_node_failover_tries_nodes_in_priority_order() {
    // The status never shows nodeA; it always shows nodeB selected + online.
    // nodeA must be tried (fail), then nodeB (succeed), in that exact order.
    let json = r#"{"BackendState":"Running","Peer":{"k1":{"HostName":"nodeB","DNSName":"nodeB.ts.net.","Online":true,"ExitNode":true,"ExitNodeOption":true}}}"#;
    let runner = FakeRunner::new()
        .with_command("tailscale")
        .on_contains("tailscale", "status", ok(json))
        .on(|p, args| p == "tailscale" && args.contains(&"set"), ok(""));
    let calls = runner.calls_handle();

    let health =
        tailscale::ensure_exit_node(&runner, &runner, &["nodeA".into(), "nodeB".into()]);
    assert_eq!(health, TsHealth::Healthy);

    let sets: Vec<String> = calls
        .borrow()
        .iter()
        .filter(|c| c.args.iter().any(|a| a == "set"))
        .map(|c| c.args.join(" "))
        .collect();
    assert_eq!(
        sets,
        vec!["set --exit-node=nodeA".to_string(), "set --exit-node=nodeB".to_string()],
        "failover must try nodes in priority order"
    );
}

fn two_interfaces() -> FakeNm {
    let mut fake = FakeNm::empty();
    fake.interfaces = vec!["wlan0".to_string(), "wlan1".to_string()];
    fake
}

#[test]
fn wifi_interface_preferred_picks_named_device_over_first_wifi() {
    let fake = two_interfaces();
    assert_eq!(
        nm::wifi_interface_preferred(&fake.devices(), Some("wlan1")).as_deref(),
        Some("wlan1")
    );
}

#[test]
fn wifi_interface_preferred_falls_back_to_first_wifi_when_pref_missing() {
    let fake = two_interfaces();
    assert_eq!(
        nm::wifi_interface_preferred(&fake.devices(), Some("wlan9")).as_deref(),
        Some("wlan0")
    );
}

#[test]
fn visible_signals_dedups_by_strongest_signal() {
    let fake = FakeNm::with_wifi(&[]);
    fake.add_ap("Cafe", 40, Security::Wpa2);
    fake.add_ap("Cafe", 85, Security::Wpa2);
    fake.add_ap("Office", 60, Security::Wpa2);

    let map = nm::visible_signals(&fake.access_points());
    assert_eq!(flow::find_signal(&map, "Cafe"), Some(85));
    assert_eq!(flow::find_signal(&map, "Office"), Some(60));
}

#[test]
fn connect_verbose_enterprise_creates_8021x_profile() {
    let fake = FakeNm::with_wifi(&[]);
    fake.add_ap("Corp", 80, Security::Enterprise);

    let mut def = net("Corp", Some("pw"));
    def.eap = Some("peap".into());
    def.identity = Some("user@corp".into());
    def.ca_cert = Some("/etc/ca.pem".into());

    let res = fake.connect("wlan0", &def, 8, "1.1.1.1");
    assert!(res.is_ok(), "enterprise connect should succeed: {res:?}");

    let all = fake.connections.borrow();
    let (_, settings) = all.first().expect("a profile was saved");
    assert_eq!(text_at(settings, "802-1x", "identity").as_deref(), Some("user@corp"));
    assert_eq!(list_at(settings, "802-1x", "eap").as_deref(), Some(&["peap".to_string()][..]));
    // ca-cert is a byte array holding the conventional `file://` URI for a
    // filesystem path, never a bare string.
    let ca = value_at(settings, "802-1x", "ca-cert").and_then(nm::value_bytes);
    assert_eq!(ca.as_deref(), Some(b"file:///etc/ca.pem".as_slice()));
    assert_eq!(
        text_at(settings, "802-11-wireless-security", "key-mgmt").as_deref(),
        Some("wpa-eap")
    );
}

#[test]
fn a_second_connect_reuses_the_profile_and_sends_no_secret() {
    // The first connect creates a profile carrying the PSK; the second one reuses
    // it and must not create a duplicate or resend the password.
    let h = host(FakeNm::with_wifi(&[("TestNet", 80)]), healthy_runner());
    let mut cfg = build_initial_config();
    cfg.networks = vec![net("TestNet", Some("hunter2"))];
    assert!(flow::run(&h, &mut cfg, "away").ok());
    assert_eq!(cfg.network("TestNet").unwrap().password, None);
    assert!(flow::run(&h, &mut cfg, "away").ok());
    let all = h.nm.connections.borrow();
    assert_eq!(all.len(), 1);
    assert_eq!(
        text_at(&all[0].1, "802-11-wireless-security", "psk").as_deref(),
        Some("hunter2")
    );
    assert_eq!(*h.nm.activated.borrow(), vec!["TestNet", "TestNet"]);
}
