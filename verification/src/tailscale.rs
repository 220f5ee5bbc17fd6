//! Tailscale: what its status says about an exit node, and the steps that bring
//! one up.

use vstd::prelude::*;

use crate::json;
use crate::json::{Json, JsonModel};
use crate::text;
use crate::util;
use crate::util::{Output, Runner};

verus! {

broadcast use crate::text::lemma_views_push;

/// How Tailscale and the exit node are doing.
#[derive(Debug, PartialEq, Eq)]
pub enum TsHealth {
    /// The backend is running and the requested exit node is selected + online.
    Healthy,
    NotInstalled,
    NeedsLogin,
    Stopped,
    /// The exit node host is not present / not advertising as an exit node.
    ExitNodeMissing,
    /// The exit node exists but is offline.
    ExitNodeOffline,
    /// An exit node is required but none is configured. Cannot be fixed
    /// automatically: the user must configure one.
    NoExitNode,
    Error(String),
}

pub enum HealthModel {
    Healthy,
    NotInstalled,
    NeedsLogin,
    Stopped,
    ExitNodeMissing,
    ExitNodeOffline,
    NoExitNode,
    Error(Seq<char>),
}

impl View for TsHealth {
    type V = HealthModel;

    open spec fn view(&self) -> HealthModel {
        match self {
            TsHealth::Healthy => HealthModel::Healthy,
            TsHealth::NotInstalled => HealthModel::NotInstalled,
            TsHealth::NeedsLogin => HealthModel::NeedsLogin,
            TsHealth::Stopped => HealthModel::Stopped,
            TsHealth::ExitNodeMissing => HealthModel::ExitNodeMissing,
            TsHealth::ExitNodeOffline => HealthModel::ExitNodeOffline,
            TsHealth::NoExitNode => HealthModel::NoExitNode,
            TsHealth::Error(e) => HealthModel::Error(e@),
        }
    }
}

impl Clone for TsHealth {
    fn clone(&self) -> (r: TsHealth)
        ensures
            r@ == self@,
    {
        match self {
            TsHealth::Healthy => TsHealth::Healthy,
            TsHealth::NotInstalled => TsHealth::NotInstalled,
            TsHealth::NeedsLogin => TsHealth::NeedsLogin,
            TsHealth::Stopped => TsHealth::Stopped,
            TsHealth::ExitNodeMissing => TsHealth::ExitNodeMissing,
            TsHealth::ExitNodeOffline => TsHealth::ExitNodeOffline,
            TsHealth::NoExitNode => TsHealth::NoExitNode,
            TsHealth::Error(e) => TsHealth::Error(e.clone()),
        }
    }
}

/// What a health says to a person.
pub open spec fn description(h: HealthModel) -> Seq<char> {
    match h {
        HealthModel::Healthy => "ok"@,
        HealthModel::NotInstalled => "tailscale not installed"@,
        HealthModel::NeedsLogin => "not logged in (run: tailscale up)"@,
        HealthModel::Stopped => "backend stopped"@,
        HealthModel::ExitNodeMissing => "exit node not found in tailnet"@,
        HealthModel::ExitNodeOffline => "exit node is offline"@,
        HealthModel::NoExitNode => "no exit node configured"@,
        HealthModel::Error(e) => "error: "@ + e,
    }
}

/// The name of a health in events and in machine-readable output.
pub open spec fn state_name(h: HealthModel) -> Seq<char> {
    match h {
        HealthModel::Healthy => "Ok"@,
        HealthModel::NotInstalled => "NotInstalled"@,
        HealthModel::NeedsLogin => "NeedsLogin"@,
        HealthModel::Stopped => "Stopped"@,
        HealthModel::ExitNodeMissing => "ExitNodeMissing"@,
        HealthModel::ExitNodeOffline => "ExitNodeOffline"@,
        HealthModel::NoExitNode => "NoExitNode"@,
        HealthModel::Error(e) => "Error"@,
    }
}

impl TsHealth {
    pub fn is_ok(&self) -> (r: bool)
        ensures
            r == (self@ is Healthy),
    {
        match self {
            TsHealth::Healthy => true,
            _ => false,
        }
    }

    pub fn describe(&self) -> (r: String)
        ensures
            r@ == description(self@),
    {
        match self {
            TsHealth::Healthy => "ok".to_string(),
            TsHealth::NotInstalled => "tailscale not installed".to_string(),
            TsHealth::NeedsLogin => "not logged in (run: tailscale up)".to_string(),
            TsHealth::Stopped => "backend stopped".to_string(),
            TsHealth::ExitNodeMissing => "exit node not found in tailnet".to_string(),
            TsHealth::ExitNodeOffline => "exit node is offline".to_string(),
            TsHealth::NoExitNode => "no exit node configured".to_string(),
            TsHealth::Error(e) => "error: ".to_string().concat(e.as_str()),
        }
    }

    /// The name used in events and in machine-readable output.
    pub fn state_str(&self) -> (r: &'static str)
        ensures
            r@ == state_name(self@),
    {
        match self {
            TsHealth::Healthy => "Ok",
            TsHealth::NotInstalled => "NotInstalled",
            TsHealth::NeedsLogin => "NeedsLogin",
            TsHealth::Stopped => "Stopped",
            TsHealth::ExitNodeMissing => "ExitNodeMissing",
            TsHealth::ExitNodeOffline => "ExitNodeOffline",
            TsHealth::NoExitNode => "NoExitNode",
            TsHealth::Error(_) => "Error",
        }
    }
}

// ---- Reading the status --------------------------------------------------

/// A text in lower case, as Unicode maps each of its characters.
pub uninterp spec fn lowercase(s: Seq<char>) -> Seq<char>;

/// `str::to_lowercase`, whose result depends on the text alone.
pub assume_specification[ str::to_lowercase ](s: &str) -> (r: String)
    ensures
        r@ == lowercase(s@),
;

/// A machine of the tailnet, its names in lower case.
#[derive(Debug, PartialEq, Eq)]
pub struct Peer {
    pub host: String,
    pub dns: String,
    /// It offers itself as an exit node.
    pub advertises: bool,
    pub online: bool,
    /// It is the exit node in use.
    pub selected: bool,
}

#[verifier::ext_equal]
pub struct PeerModel {
    pub host: Seq<char>,
    pub dns: Seq<char>,
    pub advertises: bool,
    pub online: bool,
    pub selected: bool,
}

impl View for Peer {
    type V = PeerModel;

    open spec fn view(&self) -> PeerModel {
        PeerModel {
            host: self.host@,
            dns: self.dns@,
            advertises: self.advertises,
            online: self.online,
            selected: self.selected,
        }
    }
}

/// The models behind a list of peers.
pub open spec fn peer_models(v: Seq<Peer>) -> Seq<PeerModel> {
    v.map_values(|p: Peer| p@)
}

/// The text under `key` in lower case; nothing where there is none.
pub open spec fn name_field(v: JsonModel, key: Seq<char>) -> Seq<char> {
    match json::text_field(v, key) {
        Some(t) => lowercase(t),
        None => lowercase(""@),
    }
}

/// Whether the value under `key` is `true`.
pub open spec fn flag(v: JsonModel, key: Seq<char>) -> bool {
    json::bool_field(v, key) == Some(true)
}

/// The peer that an entry of the status describes.
pub open spec fn peer(v: JsonModel) -> PeerModel {
    PeerModel {
        host: name_field(v, "HostName"@),
        dns: name_field(v, "DNSName"@),
        advertises: flag(v, "ExitNodeOption"@),
        online: flag(v, "Online"@),
        selected: flag(v, "ExitNode"@),
    }
}

/// The peers that a status lists.
pub open spec fn peers(v: JsonModel) -> Seq<PeerModel> {
    match json::field(v, "Peer"@) {
        Some(JsonModel::Object(entries)) => entries.map_values(
            |e: (Seq<char>, JsonModel)| peer(e.1),
        ),
        _ => Seq::empty(),
    }
}

/// What a status says of the exit node in use being online, where it says so.
pub open spec fn active_online(v: JsonModel) -> Option<bool> {
    match json::field(v, "ExitNodeStatus"@) {
        Some(e) => json::bool_field(e, "Online"@),
        None => None,
    }
}

/// A name up to its first dot.
pub open spec fn first_label(s: Seq<char>) -> Seq<char> {
    s.take(text::index_of_char(s, '.') as int)
}

/// Whether `p` is the exit node `want` stands for. An empty name stands for none.
pub open spec fn offers(p: PeerModel, want: Seq<char>) -> bool {
    want.len() > 0 && p.advertises && (p.host == want || first_label(p.dns) == want)
}

/// The first peer that is the exit node `want` stands for.
pub open spec fn exit_peer(peers: Seq<PeerModel>, want: Seq<char>) -> Option<PeerModel>
    decreases peers.len(),
{
    if peers.len() == 0 {
        None
    } else if offers(peers[0], want) {
        Some(peers[0])
    } else {
        exit_peer(peers.drop_first(), want)
    }
}

/// Whether the exit node exists, is online and is selected. For the selected one
/// the status of the active exit node counts, where it is known.
pub open spec fn exit_state(
    peers: Seq<PeerModel>,
    want: Seq<char>,
    active_online: Option<bool>,
) -> (bool, bool, bool) {
    match exit_peer(peers, want) {
        None => (false, false, false),
        Some(p) => (
            true,
            match active_online {
                Some(o) => if p.selected {
                    o
                } else {
                    p.online
                },
                None => p.online,
            },
            p.selected,
        ),
    }
}

fn lower_field(v: &Json, key: &str) -> (r: String)
    ensures
        r@ == name_field(v@, key@),
{
    match v.get_str(key) {
        Some(t) => t.to_lowercase(),
        None => "".to_lowercase(),
    }
}

fn flag_field(v: &Json, key: &str) -> (r: bool)
    ensures
        r == flag(v@, key@),
{
    match v.get_bool(key) {
        Some(b) => b,
        None => false,
    }
}

/// The peers that a status lists, their names in lower case.
pub fn peers_of(v: &Json) -> (r: Vec<Peer>)
    ensures
        peer_models(r@) == peers(v@),
{
    let mut out: Vec<Peer> = Vec::new();
    assert(peer_models(out@) =~= Seq::<PeerModel>::empty());
    match v.get("Peer") {
        Some(list) => {
            match list {
                Json::Object(entries) => {
                    let ghost all = peers(v@);
                    let mut i: usize = 0;
                    while i < entries.len()
                        invariant
                            i <= entries@.len(),
                            *list == Json::Object(*entries),
                            Some(list@) == json::field(v@, "Peer"@),
                            all == peers(v@),
                            peer_models(out@) == all.take(i as int),
                        decreases entries@.len() - i,
                    {
                        let e = &entries[i].1;
                        let p = Peer {
                            host: lower_field(e, "HostName"),
                            dns: lower_field(e, "DNSName"),
                            advertises: flag_field(e, "ExitNodeOption"),
                            online: flag_field(e, "Online"),
                            selected: flag_field(e, "ExitNode"),
                        };
                        assert(all[i as int] == peer(e@));
                        assert(p@ =~= all[i as int]);
                        assert(peer_models(out@.push(p)) =~= peer_models(out@).push(p@));
                        assert(all.take(i + 1) =~= all.take(i as int).push(all[i as int]));
                        out.push(p);
                        i += 1;
                    }
                    assert(all.take(i as int) =~= all);
                },
                _ => {},
            }
        },
        None => {},
    }
    out
}

/// Whether `want` is the first part of `name`, up to its first dot.
fn has_first_label(name: &str, want: &str) -> (r: bool)
    ensures
        r == (first_label(name@) == want@),
{
    let cs = text::chars_of(name);
    assert(cs@.skip(0) =~= cs@);
    let dot = text::find_char(&cs, 0, '.');
    let label = text::string_of(&cs, 0, dot);
    assert(label@ =~= first_label(name@));
    text::same(label.as_str(), want)
}

/// Whether the exit node `want` (in lower case) exists, is online and is
/// selected, by the peers of a status and what it says of the active exit node.
pub fn exit_node_among(peers: &Vec<Peer>, want: &str, active_online: Option<bool>) -> (r: (
    bool,
    bool,
    bool,
))
    ensures
        r == exit_state(peer_models(peers@), want@, active_online),
{
    let ghost all = peer_models(peers@);
    let named = !want.is_empty();
    let mut i: usize = 0;
    assert(all.skip(0) =~= all);
    while i < peers.len()
        invariant
            i <= peers@.len(),
            all == peer_models(peers@),
            named == (want@.len() > 0),
            exit_peer(all, want@) == exit_peer(all.skip(i as int), want@),
        decreases peers@.len() - i,
    {
        let p = &peers[i];
        assert(all.skip(i as int)[0] == p@);
        if named && p.advertises && (text::same(p.host.as_str(), want) || has_first_label(
            p.dns.as_str(),
            want,
        )) {
            let online = match active_online {
                Some(o) => if p.selected {
                    o
                } else {
                    p.online
                },
                None => p.online,
            };
            return (true, online, p.selected);
        }
        assert(all.skip(i as int).drop_first() =~= all.skip(i + 1));
        i += 1;
    }
    (false, false, false)
}

/// The exit node that a configured name stands for.
pub open spec fn wanted(node: Seq<char>) -> Seq<char> {
    lowercase(text::trimmed(node))
}

/// Whether the exit node that a configured name stands for exists, is online and
/// is selected, by a status. A blank name matches nothing.
pub open spec fn node_state(v: JsonModel, node: Seq<char>) -> (bool, bool, bool) {
    if text::trimmed(node).len() == 0 {
        (false, false, false)
    } else {
        exit_state(peers(v), wanted(node), active_online(v))
    }
}

/// Does any peer named `node` advertise as an exit node, and is it online /
/// currently selected? A blank name matches nothing.
pub fn exit_node_state(v: &Json, node: &str) -> (r: (bool, bool, bool))
    ensures
        r == node_state(v@, node@),
        text::trimmed(node@).len() == 0 ==> r == (false, false, false),
{
    let name = text::trim(node);
    if name.as_str().is_empty() {
        return (false, false, false);
    }
    let active = match v.get("ExitNodeStatus") {
        Some(e) => e.get_bool("Online"),
        None => None,
    };
    let want = name.as_str().to_lowercase();
    exit_node_among(&peers_of(v), want.as_str(), active)
}

/// The state of the backend, as the status names it.
pub open spec fn backend(v: JsonModel) -> Seq<char> {
    match json::text_field(v, "BackendState"@) {
        Some(s) => s,
        None => ""@,
    }
}

pub fn backend_state(v: &Json) -> (r: String)
    ensures
        r@ == backend(v@),
{
    match v.get_str("BackendState") {
        Some(s) => s.to_string(),
        None => "".to_string(),
    }
}

/// The backend waits for a login.
pub open spec fn wants_login(state: Seq<char>) -> bool {
    state == "NeedsLogin"@ || state == "NoState"@
}

fn is_login(state: &str) -> (r: bool)
    ensures
        r == wants_login(state@),
{
    text::same(state, "NeedsLogin") || text::same(state, "NoState")
}

/// How `node` is doing by a status; `unread` is the error where there is none.
pub open spec fn judged(v: Option<JsonModel>, node: Seq<char>, unread: Seq<char>) -> HealthModel {
    match v {
        None => HealthModel::Error(unread),
        Some(v) => {
            let state = backend(v);
            let (exists_, online, selected) = node_state(v, node);
            if wants_login(state) {
                HealthModel::NeedsLogin
            } else if state == "Stopped"@ {
                HealthModel::Stopped
            } else if state != "Running"@ {
                HealthModel::Error("backend state: "@ + state)
            } else if !exists_ {
                HealthModel::ExitNodeMissing
            } else if !online {
                HealthModel::ExitNodeOffline
            } else if !selected {
                HealthModel::Error("exit node not selected"@)
            } else {
                HealthModel::Healthy
            }
        },
    }
}

/// How `node` is doing by a status; `unread` is the error where there is none.
pub fn judge(v: &Option<Json>, node: &str, unread: &str) -> (r: TsHealth)
    ensures
        r@ == judged(json::opt_json(*v), node@, unread@),
{
    match v {
        None => TsHealth::Error(unread.to_string()),
        Some(v) => {
            let state = backend_state(v);
            if is_login(state.as_str()) {
                return TsHealth::NeedsLogin;
            }
            if text::same(state.as_str(), "Stopped") {
                return TsHealth::Stopped;
            }
            if !text::same(state.as_str(), "Running") {
                return TsHealth::Error("backend state: ".to_string().concat(state.as_str()));
            }
            let (found, online, selected) = exit_node_state(v, node);
            if !found {
                TsHealth::ExitNodeMissing
            } else if !online {
                TsHealth::ExitNodeOffline
            } else if !selected {
                TsHealth::Error("exit node not selected".to_string())
            } else {
                TsHealth::Healthy
            }
        },
    }
}

/// The first word of a line that is an https address.
pub open spec fn first_url(words: Seq<Seq<char>>) -> Option<Seq<char>>
    decreases words.len(),
{
    if words.len() == 0 {
        None
    } else if text::begins_with(words[0], "https://"@) {
        Some(words[0])
    } else {
        first_url(words.drop_first())
    }
}

/// The https address in a line, where there is one.
pub fn extract_url(line: &str) -> (r: Option<String>)
    ensures
        text::opt_view(r) == first_url(text::words(line@)),
{
    let words = text::split_words(line);
    let ghost all = text::views(words@);
    let mut i: usize = 0;
    assert(all.skip(0) =~= all);
    while i < words.len()
        invariant
            i <= words@.len(),
            all == text::views(words@),
            all == text::words(line@),
            first_url(all) == first_url(all.skip(i as int)),
        decreases words@.len() - i,
    {
        assert(all.skip(i as int)[0] == words@[i as int]@);
        if text::starts_with(words[i].as_str(), "https://") {
            return Some(words[i].clone());
        }
        assert(all.skip(i as int).drop_first() =~= all.skip(i + 1));
        i += 1;
    }
    None
}

/// The status behind what `tailscale status --json` printed.
pub open spec fn status_value(out: Output) -> Option<JsonModel> {
    if text::trimmed(out.stdout@).len() == 0 {
        None
    } else {
        json::parsed(out.stdout@)
    }
}

/// The status behind what `tailscale status --json` printed.
pub fn status_from(out: &Output) -> (r: Option<Json>)
    ensures
        json::opt_json(r) == status_value(*out),
{
    if text::trim(out.stdout.as_str()).as_str().is_empty() {
        return None;
    }
    json::parse(out.stdout.as_str())
}

/// The arguments that ask `tailscale` for its status.
pub open spec fn status_args() -> Seq<Seq<char>> {
    seq!["status"@, "--json"@]
}

/// `v` is a status that asking `tailscale` may have given.
pub open spec fn status_read<R: Runner>(runner: &R, v: Option<JsonModel>) -> bool {
    exists|out: Output|
        #[trigger] util::ran(runner, "tailscale"@, status_args(), None, 8, out) && v
            == status_value(out)
}

/// Asks `tailscale` for its status.
pub fn status_json<R: Runner>(runner: &R) -> (r: Option<Json>)
    ensures
        status_read(runner, json::opt_json(r)),
{
    let args = ["status", "--json"];
    assert(util::strs(args@) =~= status_args());
    let out = util::run(runner, "tailscale", &args, 8);
    status_from(&out)
}

pub fn installed<R: Runner>(runner: &R) -> (r: bool)
    ensures
        util::looked_up(runner, "tailscale"@, r),
{
    util::command_exists(runner, "tailscale")
}

// ---- A check that changes nothing ----------------------------------------

/// The configured nodes that are not blank, in order.
pub open spec fn real_nodes(nodes: Seq<Seq<char>>) -> Seq<Seq<char>>
    decreases nodes.len(),
{
    if nodes.len() == 0 {
        Seq::empty()
    } else {
        let rest = real_nodes(nodes.drop_last());
        if text::trimmed(nodes.last()).len() == 0 {
            rest
        } else {
            rest.push(nodes.last())
        }
    }
}

fn keep_real_nodes(nodes: &[String]) -> (r: Vec<String>)
    ensures
        text::views(r@) == real_nodes(text::views(nodes@)),
{
    let mut out: Vec<String> = Vec::new();
    let ghost all = text::views(nodes@);
    let mut i: usize = 0;
    assert(text::views(out@) =~= real_nodes(all.take(0)));
    while i < nodes.len()
        invariant
            i <= nodes@.len(),
            all == text::views(nodes@),
            text::views(out@) == real_nodes(all.take(i as int)),
        decreases nodes@.len() - i,
    {
        assert(all.take(i + 1).drop_last() =~= all.take(i as int));
        assert(all.take(i + 1).last() == nodes@[i as int]@);
        if text::trim(nodes[i].as_str()).unicode_len() != 0 {
            out.push(nodes[i].clone());
        }
        i += 1;
    }
    assert(all.take(i as int) =~= all);
    out
}

proof fn lemma_real_nodes(nodes: Seq<Seq<char>>)
    ensures
        forall|i: int|
            0 <= i < real_nodes(nodes).len() ==> nodes.contains(#[trigger] real_nodes(nodes)[i])
                && text::trimmed(real_nodes(nodes)[i]).len() > 0,
    decreases nodes.len(),
{
    if nodes.len() > 0 {
        let rest = nodes.drop_last();
        lemma_real_nodes(rest);
        assert forall|i: int| 0 <= i < real_nodes(nodes).len() implies nodes.contains(
            #[trigger] real_nodes(nodes)[i],
        ) && text::trimmed(real_nodes(nodes)[i]).len() > 0 by {
            if i < real_nodes(rest).len() {
                assert(real_nodes(nodes)[i] == real_nodes(rest)[i]);
                let j = rest.index_of(real_nodes(rest)[i]);
                assert(nodes[j] == rest[j]);
            } else {
                assert(nodes[nodes.len() - 1] == nodes.last());
            }
        }
    }
}

/// The health of the first node that is healthy by this status; where none is,
/// that of the last.
pub open spec fn best(nodes: Seq<Seq<char>>, v: Option<JsonModel>, unread: Seq<char>) -> HealthModel
    decreases nodes.len(),
{
    if nodes.len() == 0 {
        HealthModel::NoExitNode
    } else {
        let first = judged(v, nodes[0], unread);
        if first is Healthy || nodes.len() == 1 {
            first
        } else {
            best(nodes.drop_first(), v, unread)
        }
    }
}

/// How the exit nodes are doing, by whether `tailscale` is there and its status.
pub open spec fn checked(
    present: bool,
    nodes: Seq<Seq<char>>,
    v: Option<JsonModel>,
) -> HealthModel {
    if !present {
        HealthModel::NotInstalled
    } else {
        best(real_nodes(nodes), v, "status unavailable"@)
    }
}

/// How the exit nodes are doing by a status: the health of the first healthy
/// one, or of the last where none is.
pub fn check_status(nodes: &[String], v: &Option<Json>) -> (r: TsHealth)
    ensures
        r@ == checked(true, text::views(nodes@), json::opt_json(*v)),
{
    let kept = keep_real_nodes(nodes);
    let ghost all = text::views(kept@);
    let ghost m = json::opt_json(*v);
    if kept.len() == 0 {
        return TsHealth::NoExitNode;
    }
    let mut i: usize = 0;
    assert(all.skip(0) =~= all);
    while i + 1 < kept.len()
        invariant
            i < kept@.len(),
            all == text::views(kept@),
            m == json::opt_json(*v),
            all == real_nodes(text::views(nodes@)),
            best(all, m, "status unavailable"@) == best(
                all.skip(i as int),
                m,
                "status unavailable"@,
            ),
        decreases kept@.len() - i,
    {
        let h = judge(v, kept[i].as_str(), "status unavailable");
        assert(all.skip(i as int)[0] == kept@[i as int]@);
        if h.is_ok() {
            return h;
        }
        assert(all.skip(i as int).drop_first() =~= all.skip(i + 1));
        i += 1;
    }
    assert(all.skip(i as int)[0] == kept@[i as int]@);
    judge(v, kept[i].as_str(), "status unavailable")
}

/// Lightweight health check without trying to (re)configure anything. Asks for
/// the status only where there is a node to look for.
pub fn check<R: Runner>(runner: &R, nodes: &[String]) -> (r: TsHealth)
    ensures
        exists|present: bool|
            #[trigger] util::looked_up(runner, "tailscale"@, present) && (if !present || real_nodes(
                text::views(nodes@),
            ).len() == 0 {
                r@ == checked(present, text::views(nodes@), None)
            } else {
                exists|v: Option<JsonModel>| #[trigger]
                    status_read(runner, v) && r@ == checked(true, text::views(nodes@), v)
            }),
{
    if !installed(runner) {
        assert(util::looked_up(runner, "tailscale"@, false));
        return TsHealth::NotInstalled;
    }
    assert(util::looked_up(runner, "tailscale"@, true));
    if keep_real_nodes(nodes).len() == 0 {
        return TsHealth::NoExitNode;
    }
    let v = status_json(runner);
    assert(status_read(runner, json::opt_json(v)));
    check_status(nodes, &v)
}

// ---- Bringing an exit node up --------------------------------------------

/// Starts the interactive login in the background and returns at once.
pub trait Login {
    fn login_and_open(&self);
}

/// Where the search for a working exit node stands: which answer it waits for.
#[derive(Debug, Clone, Copy, PartialEq, Eq)]
pub enum Phase {
    /// Whether `tailscale` is there.
    Installed,
    /// The status, for the first time.
    FirstStatus,
    /// `tailscale up`, because there was no status.
    FirstUp,
    /// The status after that.
    SecondStatus,
    /// `tailscale up`, because the backend was stopped.
    StoppedUp,
    /// The status after that.
    StoppedStatus,
    /// The start of a login.
    Login,
    /// The selection of the node at this position.
    Selected(usize),
    /// The status with that node selected.
    Judged(usize),
    Finished,
}

/// What the search wants done next.
#[derive(Debug)]
pub enum Action {
    AskInstalled,
    ReadStatus,
    BringUp,
    StartLogin,
    /// Make this the exit node.
    Select(String),
    Finish(TsHealth),
}

pub enum ActionModel {
    AskInstalled,
    ReadStatus,
    BringUp,
    StartLogin,
    Select(Seq<char>),
    Finish(HealthModel),
}

impl View for Action {
    type V = ActionModel;

    open spec fn view(&self) -> ActionModel {
        match self {
            Action::AskInstalled => ActionModel::AskInstalled,
            Action::ReadStatus => ActionModel::ReadStatus,
            Action::BringUp => ActionModel::BringUp,
            Action::StartLogin => ActionModel::StartLogin,
            Action::Select(n) => ActionModel::Select(n@),
            Action::Finish(h) => ActionModel::Finish(h@),
        }
    }
}

/// What came of an action.
#[derive(Debug)]
pub enum Reply {
    Installed(bool),
    Status(Option<Json>),
    Done,
}

pub enum ReplyModel {
    Installed(bool),
    Status(Option<JsonModel>),
    Done,
}

impl View for Reply {
    type V = ReplyModel;

    open spec fn view(&self) -> ReplyModel {
        match self {
            Reply::Installed(b) => ReplyModel::Installed(*b),
            Reply::Status(v) => ReplyModel::Status(json::opt_json(*v)),
            Reply::Done => ReplyModel::Done,
        }
    }
}

/// The kind of reply that each phase waits for.
pub open spec fn fits(phase: Phase, reply: ReplyModel) -> bool {
    match phase {
        Phase::Installed => reply is Installed,
        Phase::FirstStatus | Phase::SecondStatus | Phase::StoppedStatus | Phase::Judged(
            _,
        ) => reply is Status,
        Phase::FirstUp | Phase::StoppedUp | Phase::Login | Phase::Selected(_) => reply is Done,
        Phase::Finished => false,
    }
}

/// The search ends.
pub open spec fn finish(h: HealthModel) -> (Phase, ActionModel) {
    (Phase::Finished, ActionModel::Finish(h))
}

/// The node at this position is next.
pub open spec fn select(nodes: Seq<Seq<char>>, i: usize) -> (Phase, ActionModel) {
    if i < nodes.len() {
        (Phase::Selected(i), ActionModel::Select(nodes[i as int]))
    } else {
        finish(HealthModel::NoExitNode)
    }
}

/// The first status that could be read decides what comes before the selection:
/// a login, or a bring-up where there was none yet.
pub open spec fn prepare(nodes: Seq<Seq<char>>, v: JsonModel, brought_up: bool) -> (
    Phase,
    ActionModel,
) {
    let state = backend(v);
    if wants_login(state) {
        (Phase::Login, ActionModel::StartLogin)
    } else if state == "Stopped"@ && !brought_up {
        (Phase::StoppedUp, ActionModel::BringUp)
    } else if state == ""@ {
        finish(HealthModel::Error("empty backend state"@))
    } else {
        select(nodes, 0)
    }
}

/// What follows when `reply` is what this phase waited for.
pub open spec fn step(nodes: Seq<Seq<char>>, phase: Phase, reply: ReplyModel) -> (
    Phase,
    ActionModel,
) {
    match (phase, reply) {
        (Phase::Installed, ReplyModel::Installed(present)) => if !present {
            finish(HealthModel::NotInstalled)
        } else if nodes.len() == 0 {
            finish(HealthModel::NoExitNode)
        } else {
            (Phase::FirstStatus, ActionModel::ReadStatus)
        },
        (Phase::FirstStatus, ReplyModel::Status(v)) => match v {
            Some(v) => prepare(nodes, v, false),
            None => (Phase::FirstUp, ActionModel::BringUp),
        },
        (Phase::FirstUp, _) => (Phase::SecondStatus, ActionModel::ReadStatus),
        (Phase::SecondStatus, ReplyModel::Status(v)) => match v {
            Some(v) => prepare(nodes, v, true),
            None => finish(HealthModel::Error("could not read tailscale status"@)),
        },
        (Phase::StoppedUp, _) => (Phase::StoppedStatus, ActionModel::ReadStatus),
        (Phase::StoppedStatus, ReplyModel::Status(v)) => match v {
            Some(v) => if wants_login(backend(v)) {
                (Phase::Login, ActionModel::StartLogin)
            } else {
                select(nodes, 0)
            },
            None => select(nodes, 0),
        },
        (Phase::Login, _) => select(nodes, 0),
        (Phase::Selected(i), _) => (Phase::Judged(i), ActionModel::ReadStatus),
        (Phase::Judged(i), ReplyModel::Status(v)) => {
            let h = judged(v, nodes[i as int], "could not re-read tailscale status"@);
            if h is Healthy || i + 1 >= nodes.len() {
                finish(h)
            } else {
                select(nodes, (i + 1) as usize)
            }
        },
        _ => finish(HealthModel::NoExitNode),
    }
}

/// A bound on the answers still to come.
pub open spec fn rank(n: nat, phase: Phase) -> nat {
    match phase {
        Phase::Installed => 2 * n + 8,
        Phase::FirstStatus => 2 * n + 7,
        Phase::FirstUp => 2 * n + 6,
        Phase::SecondStatus => 2 * n + 5,
        Phase::StoppedUp => 2 * n + 4,
        Phase::StoppedStatus => 2 * n + 3,
        Phase::Login => 2 * n + 2,
        Phase::Selected(i) => (2 * (n - i) + 1) as nat,
        Phase::Judged(i) => (2 * (n - i)) as nat,
        Phase::Finished => 0,
    }
}

/// The search for a working exit node among some nodes, none of them blank.
#[derive(Debug)]
pub struct Search {
    nodes: Vec<String>,
    phase: Phase,
}

impl Search {
    /// The nodes, in priority order.
    pub closed spec fn nodes(&self) -> Seq<Seq<char>> {
        text::views(self.nodes@)
    }

    pub closed spec fn phase(&self) -> Phase {
        self.phase
    }

    /// A phase that speaks of a node speaks of one that is there.
    pub closed spec fn wf(&self) -> bool {
        match self.phase {
            Phase::Selected(i) => i < self.nodes@.len(),
            Phase::Judged(i) => i < self.nodes@.len(),
            _ => true,
        }
    }

    /// Starts a search among those of `nodes` that are not blank.
    pub fn new(nodes: &[String]) -> (r: (Search, Action))
        ensures
            r.0.wf(),
            r.0.nodes() == real_nodes(text::views(nodes@)),
            r.0.phase() == Phase::Installed,
            r.1@ == ActionModel::AskInstalled,
    {
        (Search { nodes: keep_real_nodes(nodes), phase: Phase::Installed }, Action::AskInstalled)
    }

    fn finish(&mut self, h: TsHealth) -> (r: Action)
        ensures
            final(self).nodes == old(self).nodes,
            final(self).wf(),
            (final(self).phase, r@) == finish(h@),
    {
        self.phase = Phase::Finished;
        Action::Finish(h)
    }

    fn select(&mut self, i: usize) -> (r: Action)
        ensures
            final(self).nodes == old(self).nodes,
            final(self).wf(),
            (final(self).phase, r@) == select(old(self).nodes(), i),
    {
        if i < self.nodes.len() {
            self.phase = Phase::Selected(i);
            Action::Select(self.nodes[i].clone())
        } else {
            self.finish(TsHealth::NoExitNode)
        }
    }

    fn prepare(&mut self, v: &Json, brought_up: bool) -> (r: Action)
        ensures
            final(self).nodes == old(self).nodes,
            final(self).wf(),
            (final(self).phase, r@) == prepare(old(self).nodes(), v@, brought_up),
    {
        let state = backend_state(v);
        if is_login(state.as_str()) {
            self.phase = Phase::Login;
            Action::StartLogin
        } else if text::same(state.as_str(), "Stopped") && !brought_up {
            self.phase = Phase::StoppedUp;
            Action::BringUp
        } else if text::same(state.as_str(), "") {
            self.finish(TsHealth::Error("empty backend state".to_string()))
        } else {
            self.select(0)
        }
    }

    /// Takes what came of the last action and says what is next.
    pub fn next(&mut self, reply: &Reply) -> (r: Action)
        requires
            old(self).wf(),
            fits(old(self).phase(), reply@),
        ensures
            final(self).wf(),
            final(self).nodes() == old(self).nodes(),
            (final(self).phase(), r@) == step(old(self).nodes(), old(self).phase(), reply@),
            rank(old(self).nodes().len(), final(self).phase()) < rank(
                old(self).nodes().len(),
                old(self).phase(),
            ),
            final(self).phase() is Finished <==> r@ is Finish,
    {
        match (self.phase, reply) {
            (Phase::Installed, Reply::Installed(present)) => {
                if !*present {
                    self.finish(TsHealth::NotInstalled)
                } else if self.nodes.len() == 0 {
                    self.finish(TsHealth::NoExitNode)
                } else {
                    self.phase = Phase::FirstStatus;
                    Action::ReadStatus
                }
            },
            (Phase::FirstStatus, Reply::Status(v)) => match v {
                Some(v) => self.prepare(v, false),
                None => {
                    self.phase = Phase::FirstUp;
                    Action::BringUp
                },
            },
            (Phase::FirstUp, _) => {
                self.phase = Phase::SecondStatus;
                Action::ReadStatus
            },
            (Phase::SecondStatus, Reply::Status(v)) => match v {
                Some(v) => self.prepare(v, true),
                None => self.finish(TsHealth::Error("could not read tailscale status".to_string())),
            },
            (Phase::StoppedUp, _) => {
                self.phase = Phase::StoppedStatus;
                Action::ReadStatus
            },
            (Phase::StoppedStatus, Reply::Status(v)) => {
                let login = match v {
                    Some(v) => is_login(backend_state(v).as_str()),
                    None => false,
                };
                if login {
                    self.phase = Phase::Login;
                    Action::StartLogin
                } else {
                    self.select(0)
                }
            },
            (Phase::Login, _) => self.select(0),
            (Phase::Selected(i), _) => {
                self.phase = Phase::Judged(i);
                Action::ReadStatus
            },
            (Phase::Judged(i), Reply::Status(v)) => {
                let h = judge(v, self.nodes[i].as_str(), "could not re-read tailscale status");
                let count = self.nodes.len();
                if h.is_ok() || i + 1 >= count {
                    self.finish(h)
                } else {
                    self.select(i + 1)
                }
            },
            _ => self.finish(TsHealth::NoExitNode),
        }
    }
}

/// The search ends with `health` when these are the replies, from `phase` on.
pub open spec fn ends(
    nodes: Seq<Seq<char>>,
    phase: Phase,
    action: ActionModel,
    replies: Seq<ReplyModel>,
    health: HealthModel,
) -> bool
    decreases replies.len(),
{
    match action {
        ActionModel::Finish(h) => replies.len() == 0 && h == health,
        _ => {
            &&& replies.len() > 0
            &&& fits(phase, replies[0])
            &&& ({
                let (p, a) = step(nodes, phase, replies[0]);
                ends(nodes, p, a, replies.drop_first(), health)
            })
        },
    }
}

/// The argument that brings Tailscale up.
pub open spec fn up_args() -> Seq<Seq<char>> {
    seq!["up"@]
}

/// The arguments that make `node` the exit node.
pub open spec fn select_args(node: Seq<char>) -> Seq<Seq<char>> {
    seq!["set"@, "--exit-node="@ + node]
}

/// `reply` may come of `action`, done through `runner` and `login`.
pub open spec fn may_answer<R: Runner, L: Login>(
    runner: &R,
    login: &L,
    action: ActionModel,
    reply: ReplyModel,
) -> bool {
    match action {
        ActionModel::AskInstalled => reply matches ReplyModel::Installed(b) && util::looked_up(
            runner,
            "tailscale"@,
            b,
        ),
        ActionModel::ReadStatus => reply matches ReplyModel::Status(v) && status_read(runner, v),
        ActionModel::BringUp => reply is Done && util::did_run(
            runner,
            "tailscale"@,
            up_args(),
            20,
        ),
        ActionModel::StartLogin => reply is Done && call_ensures(
            L::login_and_open,
            (login,),
            (),
        ),
        ActionModel::Select(node) => reply is Done && util::did_run(
            runner,
            "tailscale"@,
            select_args(node),
            10,
        ),
        ActionModel::Finish(_) => false,
    }
}

/// The replies may come of the actions of a search, one by one.
pub open spec fn may_answer_all<R: Runner, L: Login>(
    runner: &R,
    login: &L,
    nodes: Seq<Seq<char>>,
    phase: Phase,
    action: ActionModel,
    replies: Seq<ReplyModel>,
) -> bool
    decreases replies.len(),
{
    if replies.len() == 0 {
        true
    } else {
        let (p, a) = step(nodes, phase, replies[0]);
        &&& may_answer(runner, login, action, replies[0])
        &&& may_answer_all(runner, login, nodes, p, a, replies.drop_first())
    }
}

/// The kind of action that each phase has asked for.
pub open spec fn asks(phase: Phase, action: ActionModel) -> bool {
    match phase {
        Phase::Installed => action is AskInstalled,
        Phase::FirstStatus | Phase::SecondStatus | Phase::StoppedStatus | Phase::Judged(
            _,
        ) => action is ReadStatus,
        Phase::FirstUp | Phase::StoppedUp => action is BringUp,
        Phase::Login => action is StartLogin,
        Phase::Selected(_) => action is Select,
        Phase::Finished => action is Finish,
    }
}

fn perform<R: Runner, L: Login>(runner: &R, login: &L, action: &Action) -> (r: Reply)
    requires
        !(action@ is Finish),
    ensures
        may_answer(runner, login, action@, r@),
        forall|phase: Phase| #[trigger] asks(phase, action@) ==> fits(phase, r@),
{
    match action {
        Action::AskInstalled => Reply::Installed(installed(runner)),
        Action::ReadStatus => Reply::Status(status_json(runner)),
        Action::BringUp => {
            let args = ["up"];
            assert(util::strs(args@) =~= up_args());
            let out = util::run(runner, "tailscale", &args, 20);
            assert(util::ran(runner, "tailscale"@, up_args(), None, 20, out));
            Reply::Done
        },
        Action::StartLogin => {
            login.login_and_open();
            Reply::Done
        },
        Action::Select(node) => {
            let arg = "--exit-node=".to_string().concat(node.as_str());
            let args = ["set", arg.as_str()];
            assert(util::strs(args@) =~= select_args(node@));
            let out = util::run(runner, "tailscale", &args, 10);
            assert(util::ran(runner, "tailscale"@, select_args(node@), None, 10, out));
            Reply::Done
        },
        Action::Finish(_) => Reply::Done,
    }
}

fn search_on<R: Runner, L: Login>(runner: &R, login: &L, search: &mut Search, action: Action) -> (r:
    TsHealth)
    requires
        old(search).wf(),
        asks(old(search).phase(), action@),
    ensures
        exists|replies: Seq<ReplyModel>|
            {
                &&& #[trigger] ends(
                    old(search).nodes(),
                    old(search).phase(),
                    action@,
                    replies,
                    r@,
                )
                &&& may_answer_all(
                    runner,
                    login,
                    old(search).nodes(),
                    old(search).phase(),
                    action@,
                    replies,
                )
            },
    decreases rank(old(search).nodes().len(), old(search).phase()),
{
    let ghost nodes = search.nodes();
    let ghost phase = search.phase();
    match action {
        Action::Finish(h) => {
            assert(ends(nodes, phase, action@, Seq::empty(), h@));
            h
        },
        _ => {
            let reply = perform(runner, login, &action);
            assert(fits(phase, reply@));
            let following = search.next(&reply);
            let ghost p = search.phase();
            let ghost a = following@;
            let r = search_on(runner, login, search, following);
            proof {
                let rest = choose|replies: Seq<ReplyModel>|
                    {
                        &&& #[trigger] ends(nodes, p, a, replies, r@)
                        &&& may_answer_all(runner, login, nodes, p, a, replies)
                    };
                let replies = seq![reply@] + rest;
                assert(replies.drop_first() =~= rest);
                assert(ends(nodes, phase, action@, replies, r@));
            }
            r
        },
    }
}

/// Bring Tailscale to a state where one of `nodes` is the active, online exit
/// node: bring it up, or start a login, where that is needed, each at most once;
/// then select the nodes in order, each at most once, until one is healthy. The result is the health of the last
/// node tried.
pub fn ensure_exit_node<R: Runner, L: Login>(runner: &R, login: &L, nodes: &[String]) -> (r:
    TsHealth)
    ensures
        exists|replies: Seq<ReplyModel>|
            {
                &&& #[trigger] ends(
                    real_nodes(text::views(nodes@)),
                    Phase::Installed,
                    ActionModel::AskInstalled,
                    replies,
                    r@,
                )
                &&& may_answer_all(
                    runner,
                    login,
                    real_nodes(text::views(nodes@)),
                    Phase::Installed,
                    ActionModel::AskInstalled,
                    replies,
                )
            },
{
    let (mut search, action) = Search::new(nodes);
    search_on(runner, login, &mut search, action)
}

/// A blank node is never selected: that would clear the exit node in use.
/// Whatever is selected was configured.
pub proof fn no_blank_node_is_selected(nodes: Seq<Seq<char>>, phase: Phase, reply: ReplyModel)
    ensures
        step(real_nodes(nodes), phase, reply).1 matches ActionModel::Select(node) ==> nodes.contains(
            node,
        ) && text::trimmed(node).len() > 0,
{
    lemma_real_nodes(nodes);
}

/// Without a node to use, Tailscale is left alone: nothing is run, whatever the
/// answers are.
pub proof fn without_nodes_tailscale_is_left_alone(
    nodes: Seq<Seq<char>>,
    replies: Seq<ReplyModel>,
    health: HealthModel,
)
    requires
        real_nodes(nodes).len() == 0,
        ends(
            real_nodes(nodes),
            Phase::Installed,
            ActionModel::AskInstalled,
            replies,
            health,
        ),
    ensures
        replies.len() == 1,
        health == (if replies[0] == ReplyModel::Installed(true) {
            HealthModel::NoExitNode
        } else {
            HealthModel::NotInstalled
        }),
{
    reveal_with_fuel(ends, 2);
}

/// How many of the actions of a search from `phase` on are of some kind, when
/// these are the replies.
pub open spec fn times(
    kind: spec_fn(ActionModel) -> bool,
    nodes: Seq<Seq<char>>,
    phase: Phase,
    action: ActionModel,
    replies: Seq<ReplyModel>,
) -> nat
    decreases replies.len(),
{
    let this: nat = if kind(action) {
        1
    } else {
        0
    };
    if replies.len() == 0 {
        this
    } else {
        let (p, a) = step(nodes, phase, replies[0]);
        this + times(kind, nodes, p, a, replies.drop_first())
    }
}

/// How many bring-ups, logins and selections a search may still make that waits
/// in `phase`, what it waits for included.
spec fn allowance(n: nat, phase: Phase) -> (nat, nat, nat) {
    match phase {
        Phase::Installed | Phase::FirstStatus | Phase::FirstUp | Phase::StoppedUp => (1, 1, n),
        Phase::SecondStatus | Phase::StoppedStatus | Phase::Login => (0, 1, n),
        Phase::Selected(i) => (0, 0, if i < n { (n - i) as nat } else { 0 }),
        Phase::Judged(i) => (0, 0, if i + 1 < n { (n - i - 1) as nat } else { 0 }),
        Phase::Finished => (0, 0, 0),
    }
}

proof fn lemma_allowance(
    nodes: Seq<Seq<char>>,
    phase: Phase,
    action: ActionModel,
    replies: Seq<ReplyModel>,
    health: HealthModel,
)
    requires
        nodes.len() <= usize::MAX,
        asks(phase, action),
        phase matches Phase::Selected(i) ==> i < nodes.len(),
        ends(nodes, phase, action, replies, health),
    ensures
        times(|a: ActionModel| a is BringUp, nodes, phase, action, replies) <= allowance(
            nodes.len(),
            phase,
        ).0,
        times(|a: ActionModel| a is StartLogin, nodes, phase, action, replies) <= allowance(
            nodes.len(),
            phase,
        ).1,
        times(|a: ActionModel| a is Select, nodes, phase, action, replies) <= allowance(
            nodes.len(),
            phase,
        ).2,
    decreases replies.len(),
{
    if !(action is Finish) {
        let (p, a) = step(nodes, phase, replies[0]);
        lemma_allowance(nodes, p, a, replies.drop_first(), health);
    }
}

/// One search brings Tailscale up at most once, starts at most one login, and
/// makes at most one selection for each node.
pub proof fn a_search_brings_up_at_most_once(
    nodes: Seq<Seq<char>>,
    replies: Seq<ReplyModel>,
    health: HealthModel,
)
    requires
        nodes.len() <= usize::MAX,
        ends(nodes, Phase::Installed, ActionModel::AskInstalled, replies, health),
    ensures
        times(
            |a: ActionModel| a is BringUp,
            nodes,
            Phase::Installed,
            ActionModel::AskInstalled,
            replies,
        ) <= 1,
        times(
            |a: ActionModel| a is StartLogin,
            nodes,
            Phase::Installed,
            ActionModel::AskInstalled,
            replies,
        ) <= 1,
        times(
            |a: ActionModel| a is Select,
            nodes,
            Phase::Installed,
            ActionModel::AskInstalled,
            replies,
        ) <= nodes.len(),
{
    lemma_allowance(nodes, Phase::Installed, ActionModel::AskInstalled, replies, health);
}

/// How the node at position `k` did, when the replies from the selection of the
/// one at position `i` on are these.
pub open spec fn verdict(
    nodes: Seq<Seq<char>>,
    i: int,
    replies: Seq<ReplyModel>,
    k: int,
) -> HealthModel {
    judged(
        replies[2 * (k - i) + 1]->Status_0,
        nodes[k],
        "could not re-read tailscale status"@,
    )
}

/// Nodes are tried in priority order, each once, until the first healthy one;
/// the result is the verdict on the last one tried.
pub proof fn nodes_are_tried_in_order(
    nodes: Seq<Seq<char>>,
    i: usize,
    replies: Seq<ReplyModel>,
    health: HealthModel,
)
    requires
        i < nodes.len() <= usize::MAX,
        ends(
            nodes,
            Phase::Selected(i),
            ActionModel::Select(nodes[i as int]),
            replies,
            health,
        ),
    ensures
        exists|j: int|
            {
                &&& i <= j < nodes.len()
                &&& replies.len() == 2 * (j - i) + 2
                &&& health == #[trigger] verdict(nodes, i as int, replies, j)
                &&& health is Healthy || j == nodes.len() - 1
                &&& forall|k: int|
                    i <= k < j ==> !(#[trigger] verdict(nodes, i as int, replies, k) is Healthy)
            },
    decreases replies.len(),
{
    let rest = replies.drop_first();
    let tail = rest.drop_first();
    reveal_with_fuel(ends, 3);
    assert(rest[0] == replies[1]);
    let h = verdict(nodes, i as int, replies, i as int);
    assert(judged(rest[0]->Status_0, nodes[i as int], "could not re-read tailscale status"@) == h);
    if h is Healthy || i + 1 >= nodes.len() {
        assert(health == verdict(nodes, i as int, replies, i as int));
    } else {
        let i2 = (i + 1) as usize;
        nodes_are_tried_in_order(nodes, i2, tail, health);
        let j = choose|j: int|
            {
                &&& i2 <= j < nodes.len()
                &&& tail.len() == 2 * (j - i2) + 2
                &&& health == #[trigger] verdict(nodes, i2 as int, tail, j)
                &&& health is Healthy || j == nodes.len() - 1
                &&& forall|k: int|
                    i2 <= k < j ==> !(#[trigger] verdict(nodes, i2 as int, tail, k) is Healthy)
            };
        assert forall|k: int| i < k < nodes.len() && k <= j implies verdict(
            nodes,
            i as int,
            replies,
            k,
        ) == verdict(nodes, i2 as int, tail, k) by {
            assert(tail[2 * (k - i2) + 1] == replies[2 * (k - i) + 1]);
        }
        assert(health == verdict(nodes, i as int, replies, j));
        assert forall|k: int| i <= k < j implies !(#[trigger] verdict(
            nodes,
            i as int,
            replies,
            k,
        ) is Healthy) by {
            if k > i {
                assert(!(verdict(nodes, i2 as int, tail, k) is Healthy));
            }
        }
    }
}

// ---- What holds of every status ------------------------------------------

/// A name up to its first dot: without a dot, all of it.
pub proof fn the_first_label_ends_at_the_dot(label: Seq<char>, rest: Seq<char>)
    requires
        forall|k: int| 0 <= k < label.len() ==> #[trigger] label[k] != '.',
    ensures
        first_label(label) == label,
        first_label(label + seq!['.'] + rest) == label,
{
    let all = label + seq!['.'] + rest;
    text::lemma_index_of_char(label, '.');
    text::lemma_index_of_char(all, '.');
    let i = text::index_of_char(all, '.') as int;
    let n = label.len() as int;
    assert(all[n] == '.');
    if i < n {
        assert(all[i] == label[i]);
    }
    let j = text::index_of_char(label, '.') as int;
    if j < n {
        assert(label[j] == '.');
    }
    assert(all.take(n) =~= label);
    assert(label.take(n) =~= label);
}

/// The exit node exists exactly where some peer of the status, at whatever
/// position, advertises and bears its name. Whether it is selected, the first
/// such peer tells; whether it is online too, unless it is selected and the
/// status tells that of the exit node in use.
pub proof fn the_first_peer_that_bears_the_name_counts(
    peers: Seq<PeerModel>,
    want: Seq<char>,
    active: Option<bool>,
    i: int,
)
    requires
        want.len() > 0,
        0 <= i <= peers.len(),
        forall|j: int|
            0 <= j < i ==> !((#[trigger] peers[j]).advertises && (peers[j].host == want
                || first_label(peers[j].dns) == want)),
        i < peers.len() ==> peers[i].advertises && (peers[i].host == want || first_label(
            peers[i].dns,
        ) == want),
    ensures
        ({
            let (there, online, selected) = exit_state(peers, want, active);
            &&& there == (i < peers.len())
            &&& !there ==> !online && !selected
            &&& there ==> selected == peers[i].selected
            &&& there && !selected ==> online == peers[i].online
            &&& there && selected && active is None ==> online == peers[i].online
            &&& there && selected && active is Some ==> online == active->Some_0
        }),
    decreases i,
{
    if i > 0 {
        let rest = peers.drop_first();
        assert(!offers(peers[0], want));
        assert forall|j: int| 0 <= j < i - 1 implies !((#[trigger] rest[j]).advertises && (
        rest[j].host == want || first_label(rest[j].dns) == want)) by {
            assert(rest[j] == peers[j + 1]);
        }
        if i < peers.len() {
            assert(rest[i - 1] == peers[i]);
        }
        the_first_peer_that_bears_the_name_counts(rest, want, active, i - 1);
    }
}

/// Every entry under `Peer` is a peer, in order: with its names in lower case,
/// and each flag set only where the status says so.
pub proof fn every_entry_is_a_peer(
    v: JsonModel,
    entries: Seq<(Seq<char>, JsonModel)>,
    i: int,
    host: Seq<char>,
    dns: Seq<char>,
)
    requires
        json::field(v, "Peer"@) == Some(JsonModel::Object(entries)),
        0 <= i < entries.len(),
        json::text_field(entries[i].1, "HostName"@) == Some(host),
        json::text_field(entries[i].1, "DNSName"@) == Some(dns),
    ensures
        ({
            let p = peers(v)[i];
            let e = entries[i].1;
            &&& peers(v).len() == entries.len()
            &&& p.host == lowercase(host)
            &&& p.dns == lowercase(dns)
            &&& p.advertises <==> json::field(e, "ExitNodeOption"@) == Some(JsonModel::Bool(true))
            &&& p.online <==> json::field(e, "Online"@) == Some(JsonModel::Bool(true))
            &&& p.selected <==> json::field(e, "ExitNode"@) == Some(JsonModel::Bool(true))
        }),
{
}

/// By a status, a node is looked for in lower case and without white space
/// around it, among all peers; a blank one is never there.
pub proof fn a_node_is_looked_for_among_all_peers(v: JsonModel, node: Seq<char>)
    ensures
        text::trimmed(node).len() == 0 ==> node_state(v, node) == (false, false, false),
        text::trimmed(node).len() > 0 ==> node_state(v, node) == exit_state(
            peers(v),
            lowercase(text::trimmed(node)),
            match json::field(v, "ExitNodeStatus"@) {
                Some(e) => json::bool_field(e, "Online"@),
                None => None,
            },
        ),
{
}

/// A node is healthy exactly where the backend runs and the node is there,
/// online and selected. What is amiss with it is told in this order: the login,
/// the backend, the node itself.
pub proof fn a_node_is_healthy_when_nothing_is_amiss(
    v: JsonModel,
    node: Seq<char>,
    unread: Seq<char>,
    state: Seq<char>,
)
    requires
        json::text_field(v, "BackendState"@) == Some(state),
    ensures
        ({
            let h = judged(Some(v), node, unread);
            let (there, online, selected) = node_state(v, node);
            let login = state == "NeedsLogin"@ || state == "NoState"@;
            &&& h is Healthy <==> state == "Running"@ && there && online && selected
            &&& h is NeedsLogin <==> login
            &&& h is Stopped <==> state == "Stopped"@
            &&& h is ExitNodeMissing <==> state == "Running"@ && !there
            &&& h is ExitNodeOffline <==> state == "Running"@ && there && !online
            &&& !login && state != "Stopped"@ && state != "Running"@ ==> h == HealthModel::Error(
                "backend state: "@ + state,
            )
            &&& state == "Running"@ && there && online && !selected ==> h is Error
        }),
        judged(None, node, unread) == HealthModel::Error(unread),
{
    reveal_strlit("NeedsLogin");
    reveal_strlit("NoState");
    reveal_strlit("Stopped");
    reveal_strlit("Running");
    assert("NeedsLogin"@.len() == 10 && "NoState"@[1] == 'o' && "Stopped"@[1] == 't'
        && "Running"@[1] == 'u');
    assert("NoState"@.len() == 7 && "Stopped"@.len() == 7 && "Running"@.len() == 7);
}

proof fn lemma_real_nodes_filter(nodes: Seq<Seq<char>>)
    ensures
        real_nodes(nodes) == nodes.filter(|n: Seq<char>| text::trimmed(n).len() > 0),
    decreases nodes.len(),
{
    reveal(Seq::filter);
    if nodes.len() > 0 {
        lemma_real_nodes_filter(nodes.drop_last());
    } else {
        assert(real_nodes(nodes) =~= nodes);
    }
}

/// The nodes that are tried are those that are not blank, all of them, in order.
pub proof fn only_blank_nodes_are_passed_over(nodes: Seq<Seq<char>>)
    ensures
        real_nodes(nodes) == nodes.filter(|n: Seq<char>| text::trimmed(n).len() > 0),
{
    lemma_real_nodes_filter(nodes);
}

proof fn lemma_best(nodes: Seq<Seq<char>>, v: Option<JsonModel>, unread: Seq<char>)
    ensures
        nodes.len() == 0 ==> best(nodes, v, unread) is NoExitNode,
        nodes.len() > 0 ==> (best(nodes, v, unread) is Healthy <==> exists|i: int|
            0 <= i < nodes.len() && judged(v, #[trigger] nodes[i], unread) is Healthy),
        nodes.len() > 0 && !(best(nodes, v, unread) is Healthy) ==> best(nodes, v, unread)
            == judged(v, nodes.last(), unread),
    decreases nodes.len(),
{
    if nodes.len() > 1 {
        let rest = nodes.drop_first();
        lemma_best(rest, v, unread);
        assert(rest.last() == nodes.last());
        if judged(v, nodes[0], unread) is Healthy {
            assert(judged(v, nodes[0], unread) is Healthy);
        } else if best(rest, v, unread) is Healthy {
            let i = choose|i: int|
                0 <= i < rest.len() && judged(v, #[trigger] rest[i], unread) is Healthy;
            assert(judged(v, nodes[i + 1], unread) is Healthy);
        } else {
            assert forall|i: int| 0 <= i < nodes.len() implies !(judged(
                v,
                #[trigger] nodes[i],
                unread,
            ) is Healthy) by {
                if i > 0 {
                    assert(rest[i - 1] == nodes[i]);
                }
            }
        }
    } else if nodes.len() == 1 {
        assert(nodes[0] == nodes.last());
    }
}

/// A check finds Tailscale healthy exactly where some node that is not blank is;
/// otherwise the last such node tells what is amiss.
pub proof fn a_check_looks_at_every_node(nodes: Seq<Seq<char>>, v: Option<JsonModel>)
    ensures
        ({
            let named = nodes.filter(|n: Seq<char>| text::trimmed(n).len() > 0);
            let h = checked(true, nodes, v);
            &&& named.len() == 0 ==> h is NoExitNode
            &&& named.len() > 0 ==> (h is Healthy <==> exists|i: int|
                0 <= i < named.len() && judged(v, #[trigger] named[i], "status unavailable"@)
                    is Healthy)
            &&& named.len() > 0 && !(h is Healthy) ==> h == judged(
                v,
                named.last(),
                "status unavailable"@,
            )
        }),
        checked(false, nodes, v) is NotInstalled,
{
    lemma_real_nodes_filter(nodes);
    lemma_best(real_nodes(nodes), v, "status unavailable"@);
}

/// The address in a line is the first word that begins with `https://`.
pub proof fn the_first_address_counts(words: Seq<Seq<char>>, i: int)
    requires
        0 <= i <= words.len(),
        forall|j: int| 0 <= j < i ==> !text::begins_with(#[trigger] words[j], "https://"@),
        i < words.len() ==> text::begins_with(words[i], "https://"@),
    ensures
        first_url(words) == (if i < words.len() {
            Some(words[i])
        } else {
            None
        }),
    decreases i,
{
    if i > 0 {
        let rest = words.drop_first();
        assert(!text::begins_with(words[0], "https://"@));
        assert forall|j: int| 0 <= j < i - 1 implies !text::begins_with(
            #[trigger] rest[j],
            "https://"@,
        ) by {
            assert(rest[j] == words[j + 1]);
        }
        if i < words.len() {
            assert(rest[i - 1] == words[i]);
        }
        the_first_address_counts(rest, i - 1);
    }
}

/// What a search does first, by the first status that can be read: it starts a
/// login where one is needed, brings a stopped backend up, gives up on a backend
/// without a state, and goes straight to the first node in any other case. Where
/// the status cannot be read, it brings Tailscale up and reads again, once.
pub proof fn a_search_prepares_as_the_status_asks(
    nodes: Seq<Seq<char>>,
    v: JsonModel,
    state: Seq<char>,
)
    requires
        nodes.len() > 0,
        json::text_field(v, "BackendState"@) == Some(state),
    ensures
        ({
            let first = step(nodes, Phase::FirstStatus, ReplyModel::Status(Some(v))).1;
            let second = step(nodes, Phase::SecondStatus, ReplyModel::Status(Some(v))).1;
            let login = state == "NeedsLogin"@ || state == "NoState"@;
            &&& login ==> first is StartLogin && second is StartLogin
            &&& state == "Stopped"@ ==> first is BringUp && second == ActionModel::Select(nodes[0])
            &&& state.len() == 0 ==> first is Finish && second is Finish
            &&& !login && state != "Stopped"@ && state.len() > 0 ==> first == ActionModel::Select(
                nodes[0],
            ) && second == first
        }),
        step(nodes, Phase::Installed, ReplyModel::Installed(true)).1 is ReadStatus,
        step(nodes, Phase::FirstStatus, ReplyModel::Status(None)).1 is BringUp,
        step(nodes, Phase::FirstUp, ReplyModel::Done).1 is ReadStatus,
        step(nodes, Phase::SecondStatus, ReplyModel::Status(None)).1 is Finish,
        step(nodes, Phase::Login, ReplyModel::Done).1 == ActionModel::Select(nodes[0]),
        step(nodes, Phase::StoppedUp, ReplyModel::Done).1 is ReadStatus,
        step(nodes, Phase::StoppedStatus, ReplyModel::Status(Some(v))).1 == (if state
            == "NeedsLogin"@ || state == "NoState"@ {
            ActionModel::StartLogin
        } else {
            ActionModel::Select(nodes[0])
        }),
{
    reveal_strlit("NeedsLogin");
    reveal_strlit("NoState");
    reveal_strlit("Stopped");
    reveal_strlit("");
    assert("NeedsLogin"@.len() == 10 && "NoState"@.len() == 7 && "Stopped"@.len() == 7);
    assert("NoState"@[0] == 'N' && "Stopped"@[0] == 'S');
    assert(state.len() == 0 ==> state =~= ""@);
}

/// The status of Tailscale is read from what was printed, unless that is blank.
pub proof fn a_blank_answer_is_no_status(out: Output)
    ensures
        status_value(out) == (if text::trimmed(out.stdout@).len() > 0 {
            json::parsed(out.stdout@)
        } else {
            None
        }),
{
}

/// The model of a peer tells each of its fields as it is.
pub proof fn a_peer_is_told_field_by_field(p: Peer)
    ensures
        p@.host == p.host@,
        p@.dns == p.dns@,
        p@.advertises == p.advertises,
        p@.online == p.online,
        p@.selected == p.selected,
{
}

/// Each state has a name and a description of its own.
pub proof fn states_have_their_names(e: Seq<char>)
    ensures
        state_name(HealthModel::Healthy) == "Ok"@,
        state_name(HealthModel::NotInstalled) == "NotInstalled"@,
        state_name(HealthModel::NeedsLogin) == "NeedsLogin"@,
        state_name(HealthModel::Stopped) == "Stopped"@,
        state_name(HealthModel::ExitNodeMissing) == "ExitNodeMissing"@,
        state_name(HealthModel::ExitNodeOffline) == "ExitNodeOffline"@,
        state_name(HealthModel::NoExitNode) == "NoExitNode"@,
        state_name(HealthModel::Error(e)) == "Error"@,
        description(HealthModel::Healthy) == "ok"@,
        description(HealthModel::NotInstalled) == "tailscale not installed"@,
        description(HealthModel::NeedsLogin) == "not logged in (run: tailscale up)"@,
        description(HealthModel::Stopped) == "backend stopped"@,
        description(HealthModel::ExitNodeMissing) == "exit node not found in tailnet"@,
        description(HealthModel::ExitNodeOffline) == "exit node is offline"@,
        description(HealthModel::NoExitNode) == "no exit node configured"@,
        description(HealthModel::Error(e)) == "error: "@ + e,
{
}

/// What the program is called with to tell its status, to come up and to use an
/// exit node.
pub proof fn the_program_is_called_with_its_words(node: Seq<char>)
    ensures
        status_args() == seq!["status"@, "--json"@],
        up_args() == seq!["up"@],
        select_args(node) == seq!["set"@, "--exit-node="@ + node],
{
}

} // verus!
