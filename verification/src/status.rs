//! What the network looks like right now.

use vstd::prelude::*;

use crate::backend;
use crate::backend::Backend;
use crate::config;
use crate::config::{Config, ConfigModel};
use crate::tailscale::{HealthModel, TsHealth};
use crate::text;
use crate::util;
use crate::util::{Output, Runner};

verus! {

/// Connectivity verdict. `Portal` is the interesting case: an HTTP response
/// arrived (200/301/302) but it wasn't the 204 that a genuine connection gives —
/// the signature of a captive/guest portal.
#[derive(Debug, Clone, Copy, PartialEq, Eq, Structural)]
pub enum Connectivity {
    Online,
    Portal,
    NoNet,
}

/// The verdict that an HTTP status gives, where it gives one.
pub open spec fn by_code(code: Seq<char>) -> Option<Connectivity> {
    if code == "204"@ {
        Some(Connectivity::Online)
    } else if code == "200"@ || code == "301"@ || code == "302"@ {
        Some(Connectivity::Portal)
    } else {
        None
    }
}

/// The verdict from what `curl` printed, where it ran, and what `ping` says
/// where that decides.
pub open spec fn verdict(curl: Option<Output>, ping: bool) -> Connectivity {
    let by_curl = match curl {
        Some(out) => by_code(text::trimmed(out.stdout@)),
        None => None,
    };
    match by_curl {
        Some(c) => c,
        None => if ping {
            Connectivity::Online
        } else {
            Connectivity::NoNet
        },
    }
}

/// The verdict that an HTTP status gives, where it gives one.
pub fn verdict_by_code(out: &Output) -> (r: Option<Connectivity>)
    ensures
        r == by_code(text::trimmed(out.stdout@)),
{
    let t = text::trim(out.stdout.as_str());
    let code = t.as_str();
    if text::same(code, "204") {
        Some(Connectivity::Online)
    } else if text::same(code, "200") || text::same(code, "301") || text::same(code, "302") {
        Some(Connectivity::Portal)
    } else {
        None
    }
}

/// The arguments that ask `curl` for the status of a page.
pub open spec fn curl_args(url: Seq<char>) -> Seq<Seq<char>> {
    seq![
        "-s"@,
        "-o"@,
        "/dev/null"@,
        "-w"@,
        "%{http_code}"@,
        "--max-time"@,
        "4"@,
        url,
    ]
}

/// The arguments that ping a host once.
pub open spec fn ping_args(host: Seq<char>) -> Seq<Seq<char>> {
    seq!["-c"@, "1"@, "-W"@, "2"@, host]
}

/// `out` is what asking for the page may have given; `None` where there is no
/// `curl`.
pub open spec fn fetched<R: Runner>(runner: &R, url: Seq<char>, curl: Option<Output>) -> bool {
    match curl {
        None => util::looked_up(runner, "curl"@, false),
        Some(out) => util::looked_up(runner, "curl"@, true) && util::ran(
            runner,
            "curl"@,
            curl_args(url),
            None,
            6,
            out,
        ),
    }
}

/// `up` is what pinging the host may have told.
pub open spec fn pinged<R: Runner>(runner: &R, host: Seq<char>, up: bool) -> bool {
    exists|out: Output| #[trigger]
        util::ran(runner, "ping"@, ping_args(host), None, 4, out) && up == out.success
}

/// Fetches the connectivity page; where that decides nothing, a ping does. Only
/// a 204 counts as real internet.
pub fn connectivity<R: Runner>(runner: &R, cfg: &Config) -> (r: Connectivity)
    ensures
        exists|curl: Option<Output>| #[trigger]
            fetched(runner, cfg@.settings.connectivity_url, curl) && (match curl {
                Some(out) => by_code(text::trimmed(out.stdout@)) is Some,
                None => false,
            } && r == verdict(curl, false) || exists|up: bool| #[trigger]
                pinged(runner, cfg@.settings.ping_host, up) && r == verdict(curl, up)),
{
    let ghost mut curl: Option<Output> = None;
    if util::command_exists(runner, "curl") {
        let args = [
            "-s",
            "-o",
            "/dev/null",
            "-w",
            "%{http_code}",
            "--max-time",
            "4",
            cfg.settings.connectivity_url.as_str(),
        ];
        assert(util::strs(args@) =~= curl_args(cfg@.settings.connectivity_url));
        let out = util::run(runner, "curl", &args, 6);
        proof {
            curl = Some(out);
        }
        assert(fetched(runner, cfg@.settings.connectivity_url, curl));
        match verdict_by_code(&out) {
            Some(c) => {
                return c;
            },
            None => {},
        }
    }
    assert(fetched(runner, cfg@.settings.connectivity_url, curl));
    let args = ["-c", "1", "-W", "2", cfg.settings.ping_host.as_str()];
    assert(util::strs(args@) =~= ping_args(cfg@.settings.ping_host));
    let ping = util::run(runner, "ping", &args, 4);
    assert(pinged(runner, cfg@.settings.ping_host, ping.success));
    if ping.success {
        Connectivity::Online
    } else {
        Connectivity::NoNet
    }
}

/// Whether there is real internet: a 204, or a ping where the page tells
/// nothing.
pub fn internet_ok<R: Runner>(runner: &R, cfg: &Config) -> (r: bool)
    ensures
        exists|curl: Option<Output>| #[trigger]
            fetched(runner, cfg@.settings.connectivity_url, curl) && (match curl {
                Some(out) => by_code(text::trimmed(out.stdout@)) is Some,
                None => false,
            } && r == (verdict(curl, false) is Online) || exists|up: bool| #[trigger]
                pinged(runner, cfg@.settings.ping_host, up) && r == (verdict(curl, up) is Online)),
{
    match connectivity(runner, cfg) {
        Connectivity::Online => true,
        _ => false,
    }
}

// ---- The status of a profile ---------------------------------------------

/// What was observed of the outside world.
#[derive(Debug)]
pub struct Observation {
    pub iface: Option<String>,
    pub ssid: Option<String>,
    pub ip: Option<String>,
    pub connectivity: Connectivity,
    /// `None` where Tailscale is not installed.
    pub tailscale: Option<TsHealth>,
}

#[verifier::ext_equal]
pub struct ObservationModel {
    pub iface: Option<Seq<char>>,
    pub ssid: Option<Seq<char>>,
    pub ip: Option<Seq<char>>,
    pub connectivity: Connectivity,
    pub tailscale: Option<HealthModel>,
}

/// The model of an optional health.
pub open spec fn opt_health(o: Option<TsHealth>) -> Option<HealthModel> {
    match o {
        Some(h) => Some(h@),
        None => None,
    }
}

impl View for Observation {
    type V = ObservationModel;

    open spec fn view(&self) -> ObservationModel {
        ObservationModel {
            iface: text::opt_view(self.iface),
            ssid: text::opt_view(self.ssid),
            ip: text::opt_view(self.ip),
            connectivity: self.connectivity,
            tailscale: opt_health(self.tailscale),
        }
    }
}

#[derive(Debug)]
pub struct Status {
    pub iface: Option<String>,
    pub ssid: Option<String>,
    pub ip: Option<String>,
    pub internet: bool,
    /// True when traffic is being intercepted (captive/guest portal).
    pub portal: bool,
    pub tailscale_required: bool,
    pub tailscale: Option<TsHealth>,
    pub exit_node: String,
}

#[verifier::ext_equal]
pub struct StatusModel {
    pub iface: Option<Seq<char>>,
    pub ssid: Option<Seq<char>>,
    pub ip: Option<Seq<char>>,
    pub internet: bool,
    pub portal: bool,
    pub tailscale_required: bool,
    pub tailscale: Option<HealthModel>,
    pub exit_node: Seq<char>,
}

impl View for Status {
    type V = StatusModel;

    open spec fn view(&self) -> StatusModel {
        StatusModel {
            iface: text::opt_view(self.iface),
            ssid: text::opt_view(self.ssid),
            ip: text::opt_view(self.ip),
            internet: self.internet,
            portal: self.portal,
            tailscale_required: self.tailscale_required,
            tailscale: opt_health(self.tailscale),
            exit_node: self.exit_node@,
        }
    }
}

/// Whether a profile requires Tailscale; an unknown one does not.
pub open spec fn requires_tailscale(cfg: ConfigModel, profile: Seq<char>) -> bool {
    cfg.profiles.contains_key(profile) && cfg.profiles[profile].tailscale
}

/// The exit node that a profile would rather use.
pub open spec fn first_exit_node(cfg: ConfigModel, profile: Seq<char>) -> Seq<char> {
    let nodes = config::exit_nodes(cfg, profile);
    if nodes.len() == 0 {
        Seq::empty()
    } else {
        nodes[0]
    }
}

/// The status of a profile, by what was observed. Without an interface there is
/// nothing to say of the network.
pub open spec fn status_of(cfg: ConfigModel, profile: Seq<char>, o: ObservationModel) -> StatusModel {
    let there = o.iface is Some;
    StatusModel {
        iface: o.iface,
        ssid: if there {
            o.ssid
        } else {
            None
        },
        ip: if there {
            o.ip
        } else {
            None
        },
        internet: there && o.connectivity is Online,
        portal: there && o.connectivity is Portal,
        tailscale_required: requires_tailscale(cfg, profile),
        tailscale: o.tailscale,
        exit_node: first_exit_node(cfg, profile),
    }
}

/// The status of a profile, by what was observed.
pub fn assemble(cfg: &Config, profile_name: &str, o: Observation) -> (r: Status)
    requires
        cfg.wf(),
    ensures
        r@ == status_of(cfg@, profile_name@, o@),
{
    let there = o.iface.is_some();
    let (internet, portal) = match o.connectivity {
        Connectivity::Online => (there, false),
        Connectivity::Portal => (false, there),
        Connectivity::NoNet => (false, false),
    };
    let tailscale_required = match cfg.profile(profile_name) {
        Some(p) => p.tailscale,
        None => false,
    };
    let nodes = cfg.exit_nodes_for(profile_name);
    let exit_node = if nodes.len() == 0 {
        String::new()
    } else {
        nodes[0].clone()
    };
    let (ssid, ip) = if there {
        (o.ssid, o.ip)
    } else {
        (None, None)
    };
    let r = Status {
        iface: o.iface,
        ssid,
        ip,
        internet,
        portal,
        tailscale_required,
        tailscale: o.tailscale,
        exit_node,
    };
    assert(r@ =~= status_of(cfg@, profile_name@, o@));
    r
}

/// All of this may be observed through this backend for a profile. What needs an
/// interface is not asked for without one.
pub open spec fn may_observe<B: Backend>(
    b: &B,
    cfg: ConfigModel,
    profile: Seq<char>,
    o: ObservationModel,
) -> bool {
    &&& backend::gives_interface(b, cfg.settings.interface, o.iface)
    &&& match o.iface {
        Some(i) => {
            &&& backend::names_active(b, i, o.ssid)
            &&& backend::names_address(b, i, o.ip)
            &&& backend::probes(b, cfg, o.connectivity)
        },
        None => o.ssid is None && o.ip is None && o.connectivity is NoNet,
    }
    &&& match o.tailscale {
        Some(h) => call_ensures(B::tailscale_installed, (b,), true) && backend::checks_exit_node(
            b,
            config::exit_nodes(cfg, profile),
            h,
        ),
        None => call_ensures(B::tailscale_installed, (b,), false),
    }
}

/// Observes what the status of a profile is made of. The connection is probed
/// only where there is an interface: a probe may take seconds.
pub fn observe<B: Backend>(b: &B, cfg: &Config, profile_name: &str) -> (r: Observation)
    requires
        cfg.wf(),
    ensures
        may_observe(b, cfg@, profile_name@, r@),
{
    let preferred = match &cfg.settings.interface {
        Some(i) => Some(i.as_str()),
        None => None,
    };
    let iface = b.wifi_interface(preferred);
    assert(backend::gives_interface(b, cfg@.settings.interface, text::opt_view(iface)));
    let (ssid, ip, connectivity) = match &iface {
        Some(i) => {
            let ssid = b.active_ssid(i.as_str());
            assert(backend::names_active(b, i@, text::opt_view(ssid)));
            let ip = b.ipv4(i.as_str());
            assert(backend::names_address(b, i@, text::opt_view(ip)));
            let c = b.connectivity(cfg);
            assert(backend::probes(b, cfg@, c));
            (ssid, ip, c)
        },
        None => (None, None, Connectivity::NoNet),
    };
    let tailscale = if b.tailscale_installed() {
        let nodes = cfg.exit_nodes_for(profile_name);
        let h = b.tailscale_check(nodes.as_slice());
        assert(backend::checks_exit_node(b, config::exit_nodes(cfg@, profile_name@), h@));
        Some(h)
    } else {
        None
    };
    Observation { iface, ssid, ip, connectivity, tailscale }
}

/// The status of a profile. Tailscale is looked at whenever it is installed,
/// also where the profile does not require it.
pub fn gather<B: Backend>(b: &B, cfg: &Config, profile_name: &str) -> (r: Status)
    requires
        cfg.wf(),
    ensures
        exists|o: ObservationModel| #[trigger]
            may_observe(b, cfg@, profile_name@, o) && r@ == status_of(cfg@, profile_name@, o),
{
    let o = observe(b, cfg, profile_name);
    assert(may_observe(b, cfg@, profile_name@, o@));
    assemble(cfg, profile_name, o)
}

// ---- What holds of every look --------------------------------------------

/// The code that comes back decides wherever it can: 204 is the internet, 200 and
/// the two redirects are a portal. For any other code, and without one, a ping
/// decides.
pub proof fn the_code_decides_before_the_ping(out: Output, ping: bool)
    ensures
        ({
            let code = text::trimmed(out.stdout@);
            let v = verdict(Some(out), ping);
            let w = verdict(None, ping);
            &&& code == seq!['2', '0', '4'] ==> v is Online
            &&& code == seq!['2', '0', '0'] ==> v is Portal
            &&& code == seq!['3', '0', '1'] ==> v is Portal
            &&& code == seq!['3', '0', '2'] ==> v is Portal
            &&& code != seq!['2', '0', '4'] && code != seq!['2', '0', '0'] && code != seq![
                '3',
                '0',
                '1',
            ] && code != seq!['3', '0', '2'] ==> v == w
            &&& ping ==> w is Online
            &&& !ping ==> w is NoNet
        }),
{
    reveal_strlit("204");
    reveal_strlit("200");
    reveal_strlit("301");
    reveal_strlit("302");
    assert("204"@ =~= seq!['2', '0', '4']);
    assert("200"@ =~= seq!['2', '0', '0']);
    assert("301"@ =~= seq!['3', '0', '1']);
    assert("302"@ =~= seq!['3', '0', '2']);
    assert(seq!['2', '0', '0'][2] != seq!['2', '0', '4'][2]);
    assert(seq!['3', '0', '1'][0] != seq!['2', '0', '4'][0]);
    assert(seq!['3', '0', '2'][0] != seq!['2', '0', '4'][0]);
}

/// A status tells what was observed. Without an interface there is neither a
/// network nor an address nor the internet. Tailscale is required exactly where
/// the profile says so, and the exit node is the first to be tried.
pub proof fn a_status_tells_what_was_observed(
    cfg: ConfigModel,
    profile: Seq<char>,
    o: ObservationModel,
)
    ensures
        ({
            let s = status_of(cfg, profile, o);
            &&& s.iface == o.iface
            &&& s.tailscale == o.tailscale
            &&& o.iface is Some ==> s.ssid == o.ssid && s.ip == o.ip
            &&& o.iface is Some ==> s.internet == (o.connectivity is Online)
            &&& o.iface is Some ==> s.portal == (o.connectivity is Portal)
            &&& o.iface is None ==> s.ssid is None && s.ip is None && !s.internet && !s.portal
            &&& cfg.profiles.contains_key(profile) ==> s.tailscale_required
                == cfg.profiles[profile].tailscale
            &&& !cfg.profiles.contains_key(profile) ==> !s.tailscale_required
            &&& config::exit_nodes(cfg, profile).len() > 0 ==> s.exit_node == config::exit_nodes(
                cfg,
                profile,
            )[0]
            &&& config::exit_nodes(cfg, profile).len() == 0 ==> s.exit_node.len() == 0
        }),
{
}

} // verus!
