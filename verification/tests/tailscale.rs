//! Reading the status of Tailscale, and bringing an exit node up.

use std::cell::RefCell;

use breadcrumbs::flow::Say;
use breadcrumbs::json::{parse, Json};
use breadcrumbs::login;
use breadcrumbs::login::{Act, Event};
use breadcrumbs::tailscale::{
    backend_state, check, check_status, ensure_exit_node, exit_node_among, exit_node_state,
    extract_url, installed, judge, peers_of, status_from, status_json, Action, Login, Peer, Reply,
    Search, TsHealth,
};
use breadcrumbs::util::{Child, Output, Runner};

fn text(s: &str) -> Json {
    Json::Text(s.to_string())
}

fn object(entries: Vec<(&str, Json)>) -> Json {
    Json::Object(entries.into_iter().map(|(k, v)| (k.to_string(), v)).collect())
}

fn peer(host: &str, dns: &str, online: bool, selected: bool, option: bool) -> Json {
    object(vec![
        ("HostName", text(host)),
        ("DNSName", text(dns)),
        ("Online", Json::Bool(online)),
        ("ExitNode", Json::Bool(selected)),
        ("ExitNodeOption", Json::Bool(option)),
    ])
}

fn with_peer(p: Json) -> Json {
    object(vec![("Peer", object(vec![("k1", p)]))])
}

fn nodes(names: &[&str]) -> Vec<String> {
    names.iter().map(|s| s.to_string()).collect()
}

#[test]
fn backend_state_extraction() {
    assert_eq!(backend_state(&object(vec![("BackendState", text("Running"))])), "Running");
    assert_eq!(backend_state(&object(vec![])), "");
}

#[test]
fn exit_node_healthy_and_selected() {
    let v = object(vec![
        ("BackendState", text("Running")),
        ("ExitNodeStatus", object(vec![("Online", Json::Bool(true))])),
        ("Peer", object(vec![("k1", peer("exitnode", "exitnode.ts.net.", true, true, true))])),
    ]);
    assert_eq!(exit_node_state(&v, "exitnode"), (true, true, true));
}

#[test]
fn exit_node_present_but_offline() {
    let v = object(vec![
        ("BackendState", text("Running")),
        ("Peer", object(vec![("k1", peer("exitnode", "exitnode.ts.net.", false, false, true))])),
    ]);
    assert_eq!(exit_node_state(&v, "exitnode"), (true, false, false));
}

#[test]
fn exit_node_missing_when_not_advertised() {
    let v = object(vec![
        ("BackendState", text("Running")),
        ("Peer", object(vec![("k1", peer("exitnode", "exitnode.ts.net.", true, false, false))])),
    ]);
    assert_eq!(exit_node_state(&v, "exitnode"), (false, false, false));
}

#[test]
fn exit_node_matches_via_dns_first_label() {
    let v = with_peer(peer("box-1", "exitnode.example.ts.net.", true, true, true));
    let (exists, online, selected) = exit_node_state(&v, "exitnode");
    assert!(exists && online && selected);
}

#[test]
fn exit_node_present_online_but_not_selected() {
    let v = with_peer(peer("exitnode", "exitnode.ts.net.", true, false, true));
    assert_eq!(exit_node_state(&v, "exitnode"), (true, true, false));
}

#[test]
fn exit_node_lookup_is_case_insensitive() {
    let v = with_peer(peer("ExitNode", "ExitNode.ts.net.", true, true, true));
    assert_eq!(exit_node_state(&v, "EXITNODE"), (true, true, true));
}

#[test]
fn exit_node_state_with_no_peers_is_all_false() {
    let v = object(vec![("BackendState", text("Running"))]);
    assert_eq!(exit_node_state(&v, "exitnode"), (false, false, false));
}

#[test]
fn exit_node_state_empty_node_name_matches_nothing() {
    let v = with_peer(peer("exitnode", "exitnode.ts.net.", true, true, true));
    assert_eq!(exit_node_state(&v, ""), (false, false, false));
}

#[test]
fn a_blank_node_name_matches_no_nameless_peer() {
    let nameless = || {
        object(vec![
            ("Online", Json::Bool(true)),
            ("ExitNode", Json::Bool(true)),
            ("ExitNodeOption", Json::Bool(true)),
        ])
    };
    for name in ["", " ", "\t\n"] {
        assert_eq!(exit_node_state(&with_peer(nameless()), name), (false, false, false));
    }
    assert_eq!(exit_node_among(&peers_of(&with_peer(nameless())), "", None), (false, false, false));
    let v = status("Running", nameless());
    assert_eq!(judge(&v, " ", "?"), TsHealth::ExitNodeMissing);
}

#[test]
fn exit_node_status_online_only_applies_when_selected() {
    // ExitNodeStatus.Online reflects the currently *active* exit node: it must
    // not leak into the reported state of a peer that merely matches by name
    // but isn't the one actually selected.
    let v = object(vec![
        ("ExitNodeStatus", object(vec![("Online", Json::Bool(true))])),
        ("Peer", object(vec![("k1", peer("other", "other.ts.net.", false, false, true))])),
    ]);
    assert_eq!(exit_node_state(&v, "other"), (true, false, false));
}

#[test]
fn ts_health_is_ok_only_for_ok_variant() {
    assert!(TsHealth::Healthy.is_ok());
    assert!(!TsHealth::NotInstalled.is_ok());
    assert!(!TsHealth::NeedsLogin.is_ok());
    assert!(!TsHealth::Stopped.is_ok());
    assert!(!TsHealth::ExitNodeMissing.is_ok());
    assert!(!TsHealth::ExitNodeOffline.is_ok());
    assert!(!TsHealth::NoExitNode.is_ok());
    assert!(!TsHealth::Error("x".into()).is_ok());
}

#[test]
fn ts_health_describe_is_human_readable() {
    assert_eq!(TsHealth::Healthy.describe(), "ok");
    assert_eq!(TsHealth::NeedsLogin.describe(), "not logged in (run: tailscale up)");
    assert_eq!(TsHealth::NoExitNode.describe(), "no exit node configured");
    assert_eq!(TsHealth::Error("boom".into()).describe(), "error: boom");
}

#[test]
fn extract_url_finds_https_token_among_others() {
    assert_eq!(
        extract_url("To authenticate, visit: https://login.tailscale.com/abc"),
        Some("https://login.tailscale.com/abc".to_string())
    );
    assert_eq!(extract_url("no url on this line"), None);
}

#[test]
fn the_other_descriptions_and_states() {
    assert_eq!(TsHealth::NotInstalled.describe(), "tailscale not installed");
    assert_eq!(TsHealth::Stopped.describe(), "backend stopped");
    assert_eq!(TsHealth::ExitNodeMissing.describe(), "exit node not found in tailnet");
    assert_eq!(TsHealth::ExitNodeOffline.describe(), "exit node is offline");
    assert_eq!(TsHealth::Healthy.state_str(), "Ok");
    assert_eq!(TsHealth::NotInstalled.state_str(), "NotInstalled");
    assert_eq!(TsHealth::NeedsLogin.state_str(), "NeedsLogin");
    assert_eq!(TsHealth::Stopped.state_str(), "Stopped");
    assert_eq!(TsHealth::ExitNodeMissing.state_str(), "ExitNodeMissing");
    assert_eq!(TsHealth::ExitNodeOffline.state_str(), "ExitNodeOffline");
    assert_eq!(TsHealth::NoExitNode.state_str(), "NoExitNode");
    assert_eq!(TsHealth::Error("x".into()).state_str(), "Error");
}

#[test]
fn peers_are_read_in_lower_case() {
    let v = with_peer(peer("ÄBox", "ÄBox.TS.net.", true, false, true));
    let expected = Peer {
        host: "äbox".into(),
        dns: "äbox.ts.net.".into(),
        advertises: true,
        online: true,
        selected: false,
    };
    assert_eq!(peers_of(&v), vec![expected]);
    assert!(peers_of(&text("no object")).is_empty());
}

#[test]
fn the_status_of_the_active_node_counts_for_the_selected_one() {
    let p = Peer {
        host: "exit".into(),
        dns: String::new(),
        advertises: true,
        online: false,
        selected: true,
    };
    let peers = vec![p];
    assert_eq!(exit_node_among(&peers, "exit", Some(true)), (true, true, true));
    assert_eq!(exit_node_among(&peers, "exit", Some(false)), (true, false, true));
    assert_eq!(exit_node_among(&peers, "exit", None), (true, false, true));
    assert_eq!(exit_node_among(&peers, "other", Some(true)), (false, false, false));
}

fn status(state: &str, p: Json) -> Option<Json> {
    Some(object(vec![("BackendState", text(state)), ("Peer", object(vec![("k1", p)]))]))
}

#[test]
fn a_status_is_judged_step_by_step() {
    let good = peer("n", "n.ts.net.", true, true, true);
    assert_eq!(judge(&status("Running", good), "n", "?"), TsHealth::Healthy);
    let p = || peer("n", "n.ts.net.", true, true, true);
    assert_eq!(judge(&status("NeedsLogin", p()), "n", "?"), TsHealth::NeedsLogin);
    assert_eq!(judge(&status("NoState", p()), "n", "?"), TsHealth::NeedsLogin);
    assert_eq!(judge(&status("Stopped", p()), "n", "?"), TsHealth::Stopped);
    assert_eq!(
        judge(&status("Starting", p()), "n", "?"),
        TsHealth::Error("backend state: Starting".into())
    );
    assert_eq!(judge(&status("Running", p()), "m", "?"), TsHealth::ExitNodeMissing);
    let offline = peer("n", "n.ts.net.", false, false, true);
    assert_eq!(judge(&status("Running", offline), "n", "?"), TsHealth::ExitNodeOffline);
    let unselected = peer("n", "n.ts.net.", true, false, true);
    assert_eq!(
        judge(&status("Running", unselected), "n", "?"),
        TsHealth::Error("exit node not selected".into())
    );
    assert_eq!(judge(&None, "n", "unread"), TsHealth::Error("unread".into()));
}

#[test]
fn of_several_nodes_the_first_healthy_one_counts() {
    let v = status("Running", peer("b", "b.ts.net.", true, true, true));
    assert_eq!(check_status(&nodes(&["a", "b"]), &v), TsHealth::Healthy);
    assert_eq!(check_status(&nodes(&["b", "a"]), &v), TsHealth::Healthy);
    assert_eq!(check_status(&nodes(&["a", "c"]), &v), TsHealth::ExitNodeMissing);
    assert_eq!(check_status(&nodes(&["", " "]), &v), TsHealth::NoExitNode);
    assert_eq!(check_status(&nodes(&["a"]), &None), TsHealth::Error("status unavailable".into()));
}

/// A machine with `tailscale` on it or not; the statuses are given out one by
/// one, the last one again and again.
struct Tailnet {
    present: bool,
    statuses: RefCell<Vec<String>>,
    calls: RefCell<Vec<String>>,
    logins: RefCell<u32>,
}

impl Tailnet {
    fn new(present: bool, statuses: &[&str]) -> Tailnet {
        let mut all: Vec<String> = statuses.iter().map(|s| s.to_string()).collect();
        all.reverse();
        Tailnet {
            present,
            statuses: RefCell::new(all),
            calls: RefCell::new(Vec::new()),
            logins: RefCell::new(0),
        }
    }
}

impl Runner for Tailnet {
    fn run(&self, prog: &str, args: &[&str], _stdin: Option<&str>, _timeout: u64) -> Output {
        assert_eq!(prog, "tailscale");
        self.calls.borrow_mut().push(args.join(" "));
        let mut left = self.statuses.borrow_mut();
        if args.contains(&"status") {
            let s = if left.len() > 1 { left.pop().unwrap() } else { left[0].clone() };
            return Output { success: true, stdout: s, stderr: String::new() };
        }
        Output { success: true, stdout: String::new(), stderr: String::new() }
    }

    fn command_exists(&self, name: &str) -> bool {
        self.present && name == "tailscale"
    }
}

impl Login for Tailnet {
    fn login_and_open(&self) {
        *self.logins.borrow_mut() += 1;
    }
}

const RUNNING: &str = r#"{"BackendState":"Running","Peer":{"k1":{"HostName":"n","DNSName":"n.ts.net.","Online":true,"ExitNode":true,"ExitNodeOption":true}}}"#;

#[test]
fn without_nodes_tailscale_is_not_touched() {
    let t = Tailnet::new(true, &[RUNNING]);
    assert_eq!(ensure_exit_node(&t, &t, &nodes(&[])), TsHealth::NoExitNode);
    assert_eq!(ensure_exit_node(&t, &t, &nodes(&["", "\t"])), TsHealth::NoExitNode);
    assert_eq!(check(&t, &nodes(&[" "])), TsHealth::NoExitNode);
    assert!(t.calls.borrow().is_empty());
}

#[test]
fn without_the_program_nothing_is_run() {
    let t = Tailnet::new(false, &[RUNNING]);
    assert!(!installed(&t));
    assert_eq!(ensure_exit_node(&t, &t, &nodes(&["n"])), TsHealth::NotInstalled);
    assert_eq!(check(&t, &nodes(&["n"])), TsHealth::NotInstalled);
    assert_eq!(check(&t, &nodes(&[])), TsHealth::NotInstalled);
    assert!(t.calls.borrow().is_empty());
}

#[test]
fn a_healthy_node_is_selected_once() {
    let t = Tailnet::new(true, &[RUNNING]);
    assert_eq!(ensure_exit_node(&t, &t, &nodes(&["n", "m"])), TsHealth::Healthy);
    assert_eq!(
        *t.calls.borrow(),
        vec!["status --json", "set --exit-node=n", "status --json"]
    );
    assert_eq!(check(&t, &nodes(&["n"])), TsHealth::Healthy);
}

#[test]
fn a_stopped_backend_is_brought_up() {
    let t = Tailnet::new(true, &[r#"{"BackendState":"Stopped"}"#, RUNNING]);
    assert_eq!(ensure_exit_node(&t, &t, &nodes(&["n"])), TsHealth::Healthy);
    assert_eq!(t.calls.borrow()[1], "up");
    assert_eq!(*t.logins.borrow(), 0);
}

#[test]
fn one_search_brings_up_at_most_once() {
    let stopped = r#"{"BackendState":"Stopped"}"#;
    let t = Tailnet::new(true, &["", stopped, RUNNING]);
    assert_eq!(ensure_exit_node(&t, &t, &nodes(&["n"])), TsHealth::Healthy);
    assert_eq!(
        *t.calls.borrow(),
        vec!["status --json", "up", "status --json", "set --exit-node=n", "status --json"]
    );
    let stays = Tailnet::new(true, &["", stopped]);
    assert_eq!(ensure_exit_node(&stays, &stays, &nodes(&["n"])), TsHealth::Stopped);
    assert_eq!(stays.calls.borrow().iter().filter(|c| *c == "up").count(), 1);
    // After the bring-up a login may still be needed.
    let needs = Tailnet::new(true, &["", r#"{"BackendState":"NeedsLogin"}"#, RUNNING]);
    assert_eq!(ensure_exit_node(&needs, &needs, &nodes(&["n"])), TsHealth::Healthy);
    assert_eq!(*needs.logins.borrow(), 1);
}

#[test]
fn a_login_is_started_where_one_is_needed() {
    let needs = r#"{"BackendState":"NeedsLogin"}"#;
    let t = Tailnet::new(true, &[needs, RUNNING]);
    assert_eq!(ensure_exit_node(&t, &t, &nodes(&["n"])), TsHealth::Healthy);
    assert_eq!(*t.logins.borrow(), 1);
    let stays = Tailnet::new(true, &[needs]);
    assert_eq!(ensure_exit_node(&stays, &stays, &nodes(&["n"])), TsHealth::NeedsLogin);
}

#[test]
fn an_empty_state_ends_the_search() {
    let t = Tailnet::new(true, &["{}"]);
    assert_eq!(
        ensure_exit_node(&t, &t, &nodes(&["n"])),
        TsHealth::Error("empty backend state".into())
    );
}

#[test]
fn a_status_needs_output() {
    let out = |s: &str, success: bool| Output {
        success,
        stdout: s.to_string(),
        stderr: String::new(),
    };
    assert_eq!(status_from(&out("{}", true)), Some(Json::Object(vec![])));
    assert_eq!(status_from(&out("  ", true)), None);
    assert_eq!(status_from(&out("not json", true)), None);
    let t = Tailnet::new(true, &[r#"{"BackendState":"Stopped"}"#]);
    assert_eq!(backend_state(&status_json(&t).unwrap()), "Stopped");
}

#[test]
fn the_search_asks_one_thing_at_a_time() {
    let (mut s, first) = Search::new(&nodes(&["n"]));
    assert!(matches!(first, Action::AskInstalled));
    assert!(matches!(s.next(&Reply::Installed(true)), Action::ReadStatus));
    assert!(matches!(s.next(&Reply::Status(None)), Action::BringUp));
    assert!(matches!(s.next(&Reply::Done), Action::ReadStatus));
    let end = s.next(&Reply::Status(None));
    assert!(
        matches!(end, Action::Finish(TsHealth::Error(e)) if e == "could not read tailscale status")
    );
}

#[test]
fn texts_are_read_as_serde_json_reads_them() {
    let v = parse(r#" {"a": [1, -2.5, "x\n", null, true], "b": {"c": "é"}} "#).unwrap();
    assert_eq!(
        v,
        object(vec![
            (
                "a",
                Json::Array(vec![
                    Json::Number("1".into()),
                    Json::Number("-2.5".into()),
                    text("x\n"),
                    Json::Null,
                    Json::Bool(true),
                ])
            ),
            ("b", object(vec![("c", text("é"))])),
        ])
    );
    assert_eq!(parse(""), None);
    assert_eq!(parse("{"), None);
    assert_eq!(v.get("b").unwrap().get_str("c"), Some("é"));
    assert_eq!(v.get("b").unwrap().get_bool("c"), None);
    assert_eq!(v.get("z"), None);
    assert_eq!(Json::Bool(true).as_bool(), Some(true));
    assert_eq!(Json::Null.as_str(), None);
    assert_eq!(Json::Null.get("a"), None);
}

fn login_logs(e: Event) -> (Vec<String>, Act) {
    let (says, act) = login::next(e);
    let lines = says
        .into_iter()
        .map(|s| match s {
            Say::Log(line) => line,
            Say::Notify(summary, body, u) => format!("{summary} / {body} / {}", u.as_str()),
        })
        .collect();
    (lines, act)
}

#[test]
fn a_login_opens_the_address_it_prints() {
    let (said, act) = login_logs(Event::Started(Ok(())));
    assert!(said.is_empty() && matches!(act, Act::ReadUrl));
    let url = extract_url("To authenticate, visit: https://login.example/a/1").unwrap();
    let (said, act) = login_logs(Event::Printed(Some(url)));
    assert_eq!(
        said,
        vec![
            "tailscale login: opening https://login.example/a/1",
            "Tailscale: login required / Opening browser to authenticate. / normal",
        ]
    );
    assert!(matches!(act, Act::Open(u) if u == "https://login.example/a/1"));
    let (said, act) = login_logs(Event::Opened);
    assert!(said.is_empty() && matches!(act, Act::Look));
}

#[test]
fn a_login_without_an_address_is_waited_for_all_the_same() {
    let (said, act) = login_logs(Event::Printed(None));
    assert_eq!(said, vec!["tailscale login: no URL received within 30s"]);
    assert!(matches!(act, Act::Look));
}

#[test]
fn a_login_ends_by_itself_or_by_force() {
    assert!(matches!(login_logs(Event::Seen(Child::Running, false)).1, Act::Look));
    assert!(matches!(login_logs(Event::Seen(Child::Exited(false), true)).1, Act::Stop));
    assert!(matches!(login_logs(Event::Seen(Child::Lost, false)).1, Act::Stop));
    let (said, act) = login_logs(Event::Seen(Child::Running, true));
    assert_eq!(said, vec!["tailscale login: timed out waiting for auth"]);
    assert!(matches!(act, Act::Kill));
    assert!(matches!(login_logs(Event::Killed).1, Act::Stop));
}

#[test]
fn a_login_that_does_not_start_is_logged() {
    let (said, act) = login_logs(Event::Started(Err("no sudo".to_string())));
    assert_eq!(said, vec!["tailscale login: spawn failed: no sudo"]);
    assert!(matches!(act, Act::Stop));
}
