//! The seam between the decisions of this crate and the outside world.
//!
//! Every interaction with NetworkManager, Tailscale, connectivity probes, the
//! configuration files, notifications and the log goes through [`Backend`]. A
//! fake one lets the connect state machine and the health classification run
//! without touching the host.

use vstd::prelude::*;

use crate::config::{Config, ConfigFiles, ConfigModel, NetworkDef, NetworkModel};
use crate::config;
use crate::notify::Urgency;
use crate::status::Connectivity;
use crate::tailscale::{HealthModel, TsHealth};
use crate::text;

verus! {

pub trait Backend {
    /// The Wi-Fi interface; the preferred one where it is there.
    fn wifi_interface(&self, preferred: Option<&str>) -> Option<String>;

    fn radio_on(&self);

    /// Starts a scan, also for these (maybe hidden) SSIDs.
    fn rescan(&self, iface: &str, ssids: &[String]);

    /// The visible SSIDs, each with its strongest signal.
    fn visible_signals(&self, iface: &str) -> Vec<(String, i32)>;

    fn active_ssid(&self, iface: &str) -> Option<String>;

    fn ipv4(&self, iface: &str) -> Option<String>;

    fn device_connected(&self, iface: &str) -> bool;

    fn connect(&self, iface: &str, net: &NetworkDef, wait: u32, dns: &str) -> Result<(), String>;

    fn tailscale_installed(&self) -> bool;

    fn ensure_exit_node(&self, nodes: &[String]) -> TsHealth;

    fn tailscale_check(&self, nodes: &[String]) -> TsHealth;

    fn connectivity(&self, cfg: &Config) -> Connectivity;

    /// Writes the two configuration files.
    fn save(&self, files: &ConfigFiles) -> Result<(), String>;

    fn notify(&self, summary: &str, body: &str, urgency: Urgency);

    fn log(&self, line: &str);
}

/// The model of a result that carries only an error.
pub open spec fn result_view(r: Result<(), String>) -> Result<(), Seq<char>> {
    match r {
        Ok(_) => Ok(()),
        Err(e) => Err(e@),
    }
}

/// The models behind a list of signals.
pub open spec fn signal_models(v: Seq<(String, i32)>) -> Seq<(Seq<char>, i32)> {
    v.map_values(|e: (String, i32)| (e.0@, e.1))
}

/// Asked for an interface, the backend may give this one.
pub open spec fn gives_interface<B: Backend>(
    b: &B,
    preferred: Option<Seq<char>>,
    iface: Option<Seq<char>>,
) -> bool {
    exists|p: Option<&str>, r: Option<String>|
        text::opt_str_view(p) == preferred && text::opt_view(r) == iface && #[trigger] call_ensures(
            B::wifi_interface,
            (b, p),
            r,
        )
}

/// The backend may have scanned for these SSIDs.
pub open spec fn rescanned<B: Backend>(b: &B, iface: Seq<char>, ssids: Seq<Seq<char>>) -> bool {
    exists|i: &str, s: &[String]|
        i@ == iface && text::views(s@) == ssids && #[trigger] call_ensures(
            B::rescan,
            (b, i, s),
            (),
        )
}

/// The backend may see these signals.
pub open spec fn sees<B: Backend>(
    b: &B,
    iface: Seq<char>,
    signals: Seq<(Seq<char>, i32)>,
) -> bool {
    exists|i: &str, r: Vec<(String, i32)>|
        i@ == iface && signal_models(r@) == signals && #[trigger] call_ensures(
            B::visible_signals,
            (b, i),
            r,
        )
}

/// The backend may name this SSID as the active one.
pub open spec fn names_active<B: Backend>(
    b: &B,
    iface: Seq<char>,
    ssid: Option<Seq<char>>,
) -> bool {
    exists|i: &str, r: Option<String>|
        i@ == iface && text::opt_view(r) == ssid && #[trigger] call_ensures(
            B::active_ssid,
            (b, i),
            r,
        )
}

/// The backend may name this address.
pub open spec fn names_address<B: Backend>(b: &B, iface: Seq<char>, ip: Option<Seq<char>>) -> bool {
    exists|i: &str, r: Option<String>|
        i@ == iface && text::opt_view(r) == ip && #[trigger] call_ensures(B::ipv4, (b, i), r)
}

/// The backend may say so of the device being connected.
pub open spec fn tells_connected<B: Backend>(b: &B, iface: Seq<char>, up: bool) -> bool {
    exists|i: &str| i@ == iface && #[trigger] call_ensures(B::device_connected, (b, i), up)
}

/// Connecting to this network may end so.
pub open spec fn connects<B: Backend>(
    b: &B,
    iface: Seq<char>,
    net: NetworkModel,
    wait: u32,
    dns: Seq<char>,
    result: Result<(), Seq<char>>,
) -> bool {
    exists|i: &str, n: &NetworkDef, d: &str, r: Result<(), String>|
        i@ == iface && n@ == net && d@ == dns && result_view(r) == result
            && #[trigger] call_ensures(B::connect, (b, i, n, wait, d), r)
}

/// Bringing one of these exit nodes up may end so.
pub open spec fn ensures_exit_node<B: Backend>(
    b: &B,
    nodes: Seq<Seq<char>>,
    health: HealthModel,
) -> bool {
    exists|n: &[String], r: TsHealth|
        text::views(n@) == nodes && r@ == health && #[trigger] call_ensures(
            B::ensure_exit_node,
            (b, n),
            r,
        )
}

/// Checking these exit nodes may end so.
pub open spec fn checks_exit_node<B: Backend>(
    b: &B,
    nodes: Seq<Seq<char>>,
    health: HealthModel,
) -> bool {
    exists|n: &[String], r: TsHealth|
        text::views(n@) == nodes && r@ == health && #[trigger] call_ensures(
            B::tailscale_check,
            (b, n),
            r,
        )
}

/// Probing the connection may end so.
pub open spec fn probes<B: Backend>(b: &B, cfg: ConfigModel, c: Connectivity) -> bool {
    exists|g: &Config| g@ == cfg && #[trigger] call_ensures(B::connectivity, (b, g), c)
}

/// Saving the configuration, with the networks in a file of their own, may end
/// so.
pub open spec fn saves<B: Backend>(
    b: &B,
    cfg: ConfigModel,
    result: Result<(), Seq<char>>,
) -> bool {
    exists|f: &ConfigFiles, r: Result<(), String>|
        f.main@ == (ConfigModel { networks: Seq::empty(), ..cfg }) && config::network_models(
            f.networks@,
        ) == cfg.networks && result_view(r) == result && #[trigger] call_ensures(
            B::save,
            (b, f),
            r,
        )
}

/// The backend may have shown this notification.
pub open spec fn shows<B: Backend>(
    b: &B,
    summary: Seq<char>,
    body: Seq<char>,
    urgency: Urgency,
) -> bool {
    exists|s: &str, t: &str|
        s@ == summary && t@ == body && #[trigger] call_ensures(B::notify, (b, s, t, urgency), ())
}

/// The backend may have logged this line.
pub open spec fn logs<B: Backend>(b: &B, line: Seq<char>) -> bool {
    exists|l: &str| l@ == line && #[trigger] call_ensures(B::log, (b, l), ())
}

} // verus!
