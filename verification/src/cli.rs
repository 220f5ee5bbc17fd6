//! What the commands do to the configuration, and what they print.

use vstd::prelude::*;
use vstd::string::*;

use crate::backend;
use crate::bread_events;
use crate::config;
use crate::config::{Config, ConfigModel, NetworkDef, NetworkModel, Profile, ProfileModel};
use crate::flow;
use crate::flow::{Outcome, OutcomeModel};
use crate::json::{Json, JsonModel};
use crate::nm::{ScanEntry, ScanModel};
use crate::nm;
use crate::state::State;
use crate::status;
use crate::status::{Status, StatusModel};
use crate::tailscale;
use crate::tailscale::HealthModel;
use crate::text;

verus! {

broadcast use crate::text::lemma_views_push;

pub const C_RESET: &'static str = "\x1b[0m";

pub const C_BOLD: &'static str = "\x1b[1m";

pub const C_GREEN: &'static str = "\x1b[32m";

pub const C_RED: &'static str = "\x1b[31m";

pub const C_YELLOW: &'static str = "\x1b[33m";

pub const C_DIM: &'static str = "\x1b[2m";

// ---- Small decisions -----------------------------------------------------

/// The profile to use: the one given for this run only, or the active one.
pub fn active_profile(override_p: &Option<String>, state: &State) -> (r: String)
    ensures
        r@ == (match text::opt_view(*override_p) {
            Some(p) => p,
            None => state@.profile,
        }),
{
    match override_p {
        Some(p) => p.clone(),
        None => state.profile.clone(),
    }
}

/// What follows an attempt to connect.
#[derive(Debug, Clone, Copy, PartialEq, Eq, Structural)]
pub enum Attempt {
    /// Stop with this exit code.
    Stop(i32),
    /// Try again after a pause.
    Again,
}

/// What follows an attempt: success stops; a failure stops too, unless there is
/// still time to wait.
pub fn after_attempt(connected: bool, wait: u64, deadline_passed: bool) -> (r: Attempt)
    ensures
        r == (if connected {
            Attempt::Stop(0)
        } else if wait == 0 || deadline_passed {
            Attempt::Stop(1)
        } else {
            Attempt::Again
        }),
{
    if connected {
        Attempt::Stop(0)
    } else if wait == 0 || deadline_passed {
        Attempt::Stop(1)
    } else {
        Attempt::Again
    }
}

/// Whether an attempt runs without notifications: only the first one shows any,
/// so that a long wait does not spam.
pub fn attempt_is_quiet(attempt: u64) -> (r: bool)
    ensures
        r == (attempt > 0),
{
    attempt > 0
}

/// An empty password means that the network has none.
pub fn non_empty(s: String) -> (r: Option<String>)
    ensures
        text::opt_view(r) == (if s@.len() == 0 {
            None
        } else {
            Some(s@)
        }),
{
    if s.as_str().is_empty() {
        None
    } else {
        Some(s)
    }
}

/// A text without the line feeds and carriage returns it ends in.
pub open spec fn without_line_end(s: Seq<char>) -> Seq<char>
    decreases s.len(),
{
    if s.len() > 0 && (s.last() == '\n' || s.last() == '\r') {
        without_line_end(s.drop_last())
    } else {
        s
    }
}

/// What was typed, without the end of its line.
pub fn typed_line(s: &str) -> (r: String)
    ensures
        r@ == without_line_end(s@),
{
    let cs = text::chars_of(s);
    let mut hi: usize = cs.len();
    assert(cs@.subrange(0, hi as int) =~= cs@);
    while hi > 0 && (cs[hi - 1] == '\n' || cs[hi - 1] == '\r')
        invariant
            hi <= cs@.len(),
            without_line_end(cs@) == without_line_end(cs@.subrange(0, hi as int)),
        decreases hi,
    {
        assert(cs@.subrange(0, hi as int).drop_last() =~= cs@.subrange(0, hi - 1));
        hi -= 1;
    }
    text::string_of(&cs, 0, hi)
}

/// Mask a secret for display. Always the same fixed-length placeholder, so that
/// neither the secret's length nor any character of it shows.
pub fn mask(_p: &str) -> (r: String)
    ensures
        r@ == "••••••••"@,
{
    "••••••••".to_string()
}

/// The program and arguments behind an `$EDITOR` such as "code -w".
pub open spec fn editor_command(editor: Option<Seq<char>>) -> Seq<Seq<char>> {
    let words = text::words(match editor {
        Some(e) => e,
        None => "nano"@,
    });
    if words.len() == 0 {
        seq!["nano"@]
    } else {
        words
    }
}

/// The program and arguments behind an `$EDITOR` such as "code -w"; `nano` where
/// it names none.
pub fn split_editor(editor: &Option<String>) -> (r: Vec<String>)
    ensures
        text::views(r@) == editor_command(text::opt_view(*editor)),
{
    let mut words = match editor {
        Some(e) => text::split_words(e.as_str()),
        None => text::split_words("nano"),
    };
    if words.len() == 0 {
        words.push("nano".to_string());
        assert(text::views(words@) =~= seq!["nano"@]);
    }
    words
}

/// The position, counted from zero, of the entry that a number counted from one
/// selects among `count`.
pub open spec fn selection(s: Seq<char>, count: nat) -> Option<nat> {
    match text::unsigned(s, count) {
        Some(n) => if 1 <= n {
            Some((n - 1) as nat)
        } else {
            None
        },
        None => None,
    }
}

/// The position of the entry that was selected by its number, counted from one.
pub fn parse_selection(s: &str, count: usize) -> (r: Option<usize>)
    ensures
        r is Some == selection(s@, count as nat) is Some,
        r matches Some(i) ==> Some(i as nat) == selection(s@, count as nat) && i < count,
{
    match text::parse_unsigned(s, count as u64) {
        Some(n) => {
            if n >= 1 {
                Some((n - 1) as usize)
            } else {
                None
            }
        },
        None => None,
    }
}

// ---- Detection -----------------------------------------------------------

/// How many of a profile's markers are in sight.
pub open spec fn markers_seen(markers: Seq<Seq<char>>, signals: Seq<(Seq<char>, i32)>) -> nat
    decreases markers.len(),
{
    if markers.len() == 0 {
        0
    } else {
        markers_seen(markers.drop_last(), signals) + if flow::signal_of(
            signals,
            markers.last(),
        ) is Some {
            1nat
        } else {
            0nat
        }
    }
}

/// The first of some profiles that has the most markers in sight, and how many;
/// none where no marker is.
pub open spec fn best_match(
    names: Seq<Seq<char>>,
    profiles: Map<Seq<char>, ProfileModel>,
    signals: Seq<(Seq<char>, i32)>,
) -> Option<(Seq<char>, nat)>
    decreases names.len(),
{
    if names.len() == 0 {
        None
    } else {
        let before = best_match(names.drop_last(), profiles, signals);
        let count = markers_seen(profiles[names.last()].detect_ssids, signals);
        let best = match before {
            Some((_, c)) => c,
            None => 0,
        };
        if count > best {
            Some((names.last(), count))
        } else {
            before
        }
    }
}

/// The profile that a location speaks for: the one with the most markers in
/// sight, or else the default one, where that exists.
pub open spec fn detected(
    names: Seq<Seq<char>>,
    cfg: ConfigModel,
    signals: Seq<(Seq<char>, i32)>,
) -> Option<Seq<char>> {
    match best_match(names, cfg.profiles, signals) {
        Some((name, _)) => Some(name),
        None => if cfg.profiles.contains_key(cfg.settings.default_profile) {
            Some(cfg.settings.default_profile)
        } else {
            None
        },
    }
}

fn count_markers(markers: &Vec<String>, signals: &Vec<(String, i32)>) -> (r: usize)
    ensures
        r == markers_seen(text::views(markers@), backend::signal_models(signals@)),
{
    let ghost all = text::views(markers@);
    let mut n: usize = 0;
    let mut i: usize = 0;
    assert(all.take(0).len() == 0);
    while i < markers.len()
        invariant
            i <= markers@.len(),
            n <= i,
            all == text::views(markers@),
            n == markers_seen(all.take(i as int), backend::signal_models(signals@)),
        decreases markers@.len() - i,
    {
        assert(all.take(i + 1).drop_last() =~= all.take(i as int));
        assert(all.take(i + 1).last() == markers@[i as int]@);
        if flow::find_signal(signals, markers[i].as_str()).is_some() {
            n += 1;
        }
        i += 1;
    }
    assert(all.take(i as int) =~= all);
    n
}

/// Guess the profile from the visible networks: the profile with the most
/// matching markers wins; of equals the alphabetically first. Without a match
/// the default profile is it, but only if it exists.
pub fn detect_profile(cfg: &Config, signals: &Vec<(String, i32)>) -> (r: Option<String>)
    requires
        cfg.wf(),
    ensures
        text::opt_view(r) == detected(
            cfg.profiles.spec_names(),
            cfg@,
            backend::signal_models(signals@),
        ),
{
    let ghost names = cfg.profiles.spec_names();
    let ghost sm = backend::signal_models(signals@);
    let mut best: Option<String> = None;
    let mut count: usize = 0;
    let mut i: usize = 0;
    assert(names.take(0).len() == 0);
    while i < cfg.profiles.len()
        invariant
            cfg.wf(),
            i <= names.len(),
            names == cfg.profiles.spec_names(),
            sm == backend::signal_models(signals@),
            match best_match(names.take(i as int), cfg@.profiles, sm) {
                Some((n, c)) => text::opt_view(best) == Some(n) && count == c,
                None => best is None && count == 0,
            },
        decreases names.len() - i,
    {
        assert(names.take(i + 1).drop_last() =~= names.take(i as int));
        let (name, p) = cfg.profiles.at(i);
        assert(names.take(i + 1).last() == name@);
        let n = count_markers(&p.detect_ssids, signals);
        if n > count {
            best = Some(name.clone());
            count = n;
        }
        i += 1;
    }
    assert(names.take(i as int) =~= names);
    match best {
        Some(name) => Some(name),
        None => {
            if cfg.profiles.contains_key(cfg.settings.default_profile.as_str()) {
                Some(cfg.settings.default_profile.clone())
            } else {
                None
            }
        },
    }
}

/// A detected profile exists, and no other has more markers in sight.
pub proof fn the_detected_profile_has_the_most_markers(
    names: Seq<Seq<char>>,
    cfg: ConfigModel,
    signals: Seq<(Seq<char>, i32)>,
    i: int,
)
    requires
        0 <= i < names.len(),
        forall|k: Seq<char>| names.contains(k) <==> #[trigger] cfg.profiles.contains_key(k),
        markers_seen(cfg.profiles[names[i]].detect_ssids, signals) > 0,
    ensures
        detected(names, cfg, signals) matches Some(name) && cfg.profiles.contains_key(name)
            && markers_seen(cfg.profiles[name].detect_ssids, signals) >= markers_seen(
            cfg.profiles[names[i]].detect_ssids,
            signals,
        ),
{
    lemma_best_match(names, cfg.profiles, signals, i);
}

proof fn lemma_best_match(
    names: Seq<Seq<char>>,
    profiles: Map<Seq<char>, ProfileModel>,
    signals: Seq<(Seq<char>, i32)>,
    i: int,
)
    requires
        0 <= i < names.len(),
        markers_seen(profiles[names[i]].detect_ssids, signals) > 0,
    ensures
        best_match(names, profiles, signals) matches Some((name, c)) && names.contains(name) && c
            == markers_seen(profiles[name].detect_ssids, signals) && c >= markers_seen(
            profiles[names[i]].detect_ssids,
            signals,
        ),
    decreases names.len(),
{
    let rest = names.drop_last();
    lemma_best_is_there(rest, profiles, signals);
    assert(names.last() == names[names.len() - 1]);
    if i < rest.len() {
        assert(rest[i] == names[i]);
        lemma_best_match(rest, profiles, signals, i);
    }
    match best_match(rest, profiles, signals) {
        Some((name, c)) => {
            let j = rest.index_of(name);
            assert(names[j] == name);
        },
        None => {},
    }
}

proof fn lemma_best_is_there(
    names: Seq<Seq<char>>,
    profiles: Map<Seq<char>, ProfileModel>,
    signals: Seq<(Seq<char>, i32)>,
)
    ensures
        best_match(names, profiles, signals) matches Some((name, c)) ==> names.contains(name) && c
            == markers_seen(profiles[name].detect_ssids, signals),
    decreases names.len(),
{
    if names.len() > 0 {
        let rest = names.drop_last();
        lemma_best_is_there(rest, profiles, signals);
        assert(names.last() == names[names.len() - 1]);
        match best_match(rest, profiles, signals) {
            Some((name, c)) => {
                let j = rest.index_of(name);
                assert(names[j] == name);
            },
            None => {},
        }
    }
}

// ---- Changes to the configuration ----------------------------------------

/// What is known of a network to add or update. `None` leaves a saved value as
/// it is, except for the password.
#[derive(Debug)]
pub struct AddOpts {
    pub password: Option<String>,
    pub hidden: Option<bool>,
    pub dns: Option<String>,
    pub eap: Option<String>,
    pub identity: Option<String>,
    pub ca_cert: Option<String>,
    /// The profile to attach the network to.
    pub to: Option<String>,
    /// The position in its list; 0 is the highest priority.
    pub at: Option<usize>,
}

#[verifier::ext_equal]
pub struct AddModel {
    pub password: Option<Seq<char>>,
    pub hidden: Option<bool>,
    pub dns: Option<Seq<char>>,
    pub eap: Option<Seq<char>>,
    pub identity: Option<Seq<char>>,
    pub ca_cert: Option<Seq<char>>,
    pub to: Option<Seq<char>>,
    pub at: Option<usize>,
}

impl View for AddOpts {
    type V = AddModel;

    open spec fn view(&self) -> AddModel {
        AddModel {
            password: text::opt_view(self.password),
            hidden: self.hidden,
            dns: text::opt_view(self.dns),
            eap: text::opt_view(self.eap),
            identity: text::opt_view(self.identity),
            ca_cert: text::opt_view(self.ca_cert),
            to: text::opt_view(self.to),
            at: self.at,
        }
    }
}

/// The new value where there is one, or else the old.
pub open spec fn new_or<T>(new: Option<T>, old_value: Option<T>) -> Option<T> {
    match new {
        Some(v) => Some(v),
        None => old_value,
    }
}

/// A saved network, updated.
pub open spec fn refreshed(n: NetworkModel, o: AddModel) -> NetworkModel {
    NetworkModel {
        ssid: n.ssid,
        password: o.password,
        dns: new_or(o.dns, n.dns),
        eap: new_or(o.eap, n.eap),
        identity: new_or(o.identity, n.identity),
        ca_cert: new_or(o.ca_cert, n.ca_cert),
        hidden: match o.hidden {
            Some(h) => h,
            None => n.hidden,
        },
    }
}

/// A network that nothing is known of but its SSID.
pub open spec fn blank_network(ssid: Seq<char>) -> NetworkModel {
    NetworkModel {
        ssid,
        password: None,
        dns: None,
        eap: None,
        identity: None,
        ca_cert: None,
        hidden: false,
    }
}

/// The networks with one added, or updated where its SSID is there.
pub open spec fn with_network(nets: Seq<NetworkModel>, ssid: Seq<char>, o: AddModel) -> Seq<
    NetworkModel,
> {
    let i = text::first_index(config::ssids(nets), ssid) as int;
    if i < nets.len() {
        nets.update(i, refreshed(nets[i], o))
    } else {
        nets.push(refreshed(blank_network(ssid), o))
    }
}

/// A list without any copy of `s`.
pub open spec fn without(list: Seq<Seq<char>>, s: Seq<char>) -> Seq<Seq<char>>
    decreases list.len(),
{
    if list.len() == 0 {
        Seq::empty()
    } else {
        let before = without(list.drop_last(), s);
        if list.last() == s {
            before
        } else {
            before.push(list.last())
        }
    }
}

fn drop_all(list: &Vec<String>, s: &str) -> (r: Vec<String>)
    ensures
        text::views(r@) == without(text::views(list@), s@),
{
    let ghost all = text::views(list@);
    let mut out: Vec<String> = Vec::new();
    let mut i: usize = 0;
    assert(text::views(out@) =~= without(all.take(0), s@));
    while i < list.len()
        invariant
            i <= list@.len(),
            all == text::views(list@),
            text::views(out@) == without(all.take(i as int), s@),
        decreases list@.len() - i,
    {
        assert(all.take(i + 1).drop_last() =~= all.take(i as int));
        assert(all.take(i + 1).last() == list@[i as int]@);
        if !text::same(list[i].as_str(), s) {
            out.push(list[i].clone());
        }
        i += 1;
    }
    assert(all.take(i as int) =~= all);
    out
}

/// The priority list with `ssid` at a position, and nowhere else; at the end
/// where no position is given or it lies beyond.
pub open spec fn placed(list: Seq<Seq<char>>, ssid: Seq<char>, at: Option<usize>) -> Seq<Seq<char>> {
    let rest = without(list, ssid);
    let i: int = match at {
        Some(n) => if n <= rest.len() {
            n as int
        } else {
            rest.len() as int
        },
        None => rest.len() as int,
    };
    rest.insert(i, ssid)
}

/// The configuration with a network added to this profile's list.
pub open spec fn attached(
    cfg: ConfigModel,
    name: Seq<char>,
    ssid: Seq<char>,
    at: Option<usize>,
) -> ConfigModel {
    let p = cfg.profiles[name];
    ConfigModel {
        profiles: cfg.profiles.insert(
            name,
            ProfileModel { networks: placed(p.networks, ssid, at), ..p },
        ),
        ..cfg
    }
}

/// The configuration with a network added or updated, and attached where a
/// profile is given that exists.
pub open spec fn added(cfg: ConfigModel, ssid: Seq<char>, o: AddModel) -> ConfigModel {
    let c = ConfigModel { networks: with_network(cfg.networks, ssid, o), ..cfg };
    match o.to {
        Some(name) => if c.profiles.contains_key(name) {
            attached(c, name, ssid, o.at)
        } else {
            c
        },
        None => c,
    }
}

/// What is said of a profile that does not exist.
pub open spec fn unknown_profile(name: Seq<char>) -> Seq<char> {
    "unknown profile '"@ + name + "'"@
}

fn newer(new: Option<String>, old_value: &Option<String>) -> (r: Option<String>)
    ensures
        text::opt_view(r) == new_or(text::opt_view(new), text::opt_view(*old_value)),
{
    match new {
        Some(v) => Some(v),
        None => text::copy_opt(old_value),
    }
}

fn attach(p: &mut Profile, ssid: &str, at: Option<usize>)
    ensures
        final(p)@ == (ProfileModel {
            networks: placed(old(p)@.networks, ssid@, at),
            ..old(p)@
        }),
{
    let ghost before = p@;
    let mut list = drop_all(&p.networks, ssid);
    let ghost rest = text::views(list@);
    let i = match at {
        Some(n) => if n <= list.len() {
            n
        } else {
            list.len()
        },
        None => list.len(),
    };
    let s = ssid.to_string();
    assert(text::views(list@.insert(i as int, s)) =~= rest.insert(i as int, ssid@));
    list.insert(i, s);
    p.networks = list;
    assert(p@ =~= ProfileModel { networks: placed(before.networks, ssid@, at), ..before });
}

/// Add or update a saved network, and attach it to a profile where one is given.
/// What was changed is then to be saved.
pub fn add_network(cfg: &mut Config, ssid: &str, opts: AddOpts) -> (r: Result<(), String>)
    requires
        old(cfg).wf(),
    ensures
        final(cfg).wf(),
        final(cfg)@ == added(old(cfg)@, ssid@, opts@),
        final(cfg).profiles.spec_names() == old(cfg).profiles.spec_names(),
        r is Err <==> opts@.to is Some && !old(cfg)@.profiles.contains_key(opts@.to->Some_0),
        r matches Err(e) ==> e@ == unknown_profile(opts@.to->Some_0),
{
    let ghost before = cfg@;
    let ghost o = opts@;
    let i = config::find_network(&cfg.networks, ssid);
    if i < cfg.networks.len() {
        let n = cfg.networks[i].clone();
        assert(before.networks[i as int] == n@);
        let hidden = match opts.hidden {
            Some(h) => h,
            None => n.hidden,
        };
        let fresh = NetworkDef {
            ssid: n.ssid,
            password: opts.password,
            dns: newer(opts.dns, &n.dns),
            eap: newer(opts.eap, &n.eap),
            identity: newer(opts.identity, &n.identity),
            ca_cert: newer(opts.ca_cert, &n.ca_cert),
            hidden,
        };
        assert(fresh@ =~= refreshed(before.networks[i as int], o));
        cfg.networks.set(i, fresh);
        assert(config::network_models(cfg.networks@) =~= before.networks.update(
            i as int,
            fresh@,
        ));
    } else {
        let hidden = match opts.hidden {
            Some(h) => h,
            None => false,
        };
        let fresh = NetworkDef {
            ssid: ssid.to_string(),
            password: opts.password,
            dns: opts.dns,
            eap: opts.eap,
            identity: opts.identity,
            ca_cert: opts.ca_cert,
            hidden,
        };
        assert(fresh@ =~= refreshed(blank_network(ssid@), o));
        cfg.networks.push(fresh);
        assert(config::network_models(cfg.networks@) =~= before.networks.push(fresh@));
    }
    assert(cfg@ =~= ConfigModel { networks: with_network(before.networks, ssid@, o), ..before });
    match opts.to {
        Some(name) => match cfg.profiles.get_mut(name.as_str()) {
            Some(p) => {
                attach(p, ssid, opts.at);
                Ok(())
            },
            None => Err("unknown profile '".to_string().concat(name.as_str()).concat("'")),
        },
        None => Ok(()),
    }
}

/// A profile that no longer speaks of `ssid`.
pub open spec fn forgotten_in(p: ProfileModel, ssid: Seq<char>) -> ProfileModel {
    ProfileModel {
        networks: without(p.networks, ssid),
        bootstrap: if p.bootstrap == Some(ssid) {
            None
        } else {
            p.bootstrap
        },
        ..p
    }
}

/// The networks without those with this SSID.
pub open spec fn without_network(nets: Seq<NetworkModel>, ssid: Seq<char>) -> Seq<NetworkModel>
    decreases nets.len(),
{
    if nets.len() == 0 {
        Seq::empty()
    } else {
        let before = without_network(nets.drop_last(), ssid);
        if nets.last().ssid == ssid {
            before
        } else {
            before.push(nets.last())
        }
    }
}

/// The configuration without a network.
pub open spec fn forgotten(cfg: ConfigModel, ssid: Seq<char>) -> ConfigModel {
    ConfigModel {
        networks: without_network(cfg.networks, ssid),
        profiles: cfg.profiles.map_values(|p: ProfileModel| forgotten_in(p, ssid)),
        ..cfg
    }
}

fn drop_networks(nets: &Vec<NetworkDef>, ssid: &str) -> (r: Vec<NetworkDef>)
    ensures
        config::network_models(r@) == without_network(config::network_models(nets@), ssid@),
{
    let ghost all = config::network_models(nets@);
    let mut out: Vec<NetworkDef> = Vec::new();
    let mut i: usize = 0;
    assert(config::network_models(out@) =~= without_network(all.take(0), ssid@));
    while i < nets.len()
        invariant
            i <= nets@.len(),
            all == config::network_models(nets@),
            config::network_models(out@) == without_network(all.take(i as int), ssid@),
        decreases nets@.len() - i,
    {
        assert(all.take(i + 1).drop_last() =~= all.take(i as int));
        assert(all.take(i + 1).last() == nets@[i as int]@);
        if !text::same(nets[i].ssid.as_str(), ssid) {
            let n = nets[i].clone();
            assert(config::network_models(out@.push(n)) =~= config::network_models(out@).push(n@));
            out.push(n);
        }
        i += 1;
    }
    assert(all.take(i as int) =~= all);
    out
}

fn forget_in(p: &mut Profile, ssid: &str)
    ensures
        final(p)@ == forgotten_in(old(p)@, ssid@),
{
    let ghost before = p@;
    p.networks = drop_all(&p.networks, ssid);
    if text::same_opt(&p.bootstrap, ssid) {
        p.bootstrap = None;
    }
    assert(p@ =~= forgotten_in(before, ssid@));
}

proof fn lemma_without_network_len(nets: Seq<NetworkModel>, ssid: Seq<char>)
    ensures
        without_network(nets, ssid).len() <= nets.len(),
        without_network(nets, ssid).len() == nets.len() ==> !config::ssids(nets).contains(ssid),
        !config::ssids(nets).contains(ssid) ==> without_network(nets, ssid) == nets,
        !config::ssids(without_network(nets, ssid)).contains(ssid),
    decreases nets.len(),
{
    if nets.len() > 0 {
        let rest = nets.drop_last();
        lemma_without_network_len(rest, ssid);
        let out = without_network(nets, ssid);
        let before = without_network(rest, ssid);
        assert(config::ssids(nets) =~= config::ssids(rest).push(nets.last().ssid));
        assert(config::ssids(nets)[nets.len() - 1] == nets.last().ssid);
        if !config::ssids(nets).contains(ssid) {
            assert(!config::ssids(rest).contains(ssid)) by {
                if config::ssids(rest).contains(ssid) {
                    let j = config::ssids(rest).index_of(ssid);
                    assert(config::ssids(nets)[j] == ssid);
                }
            }
            assert(out =~= nets);
        }
        if config::ssids(out).contains(ssid) {
            let j = config::ssids(out).index_of(ssid);
            if j < before.len() {
                assert(config::ssids(before)[j] == ssid);
            }
        }
        if out.len() == nets.len() && config::ssids(nets).contains(ssid) {
            let j = config::ssids(nets).index_of(ssid);
            if j < rest.len() {
                assert(config::ssids(rest)[j] == ssid);
            }
        }
    }
}

/// Remove a network from the configuration: from the saved ones and from every
/// profile. Tells whether one was saved.
pub fn forget_network(cfg: &mut Config, ssid: &str) -> (r: bool)
    requires
        old(cfg).wf(),
    ensures
        final(cfg).wf(),
        final(cfg)@ == forgotten(old(cfg)@, ssid@),
        final(cfg).profiles.spec_names() == old(cfg).profiles.spec_names(),
        r == config::ssids(old(cfg)@.networks).contains(ssid@),
{
    let ghost before = cfg@;
    let count = cfg.networks.len();
    proof {
        lemma_without_network_len(before.networks, ssid@);
    }
    cfg.networks = drop_networks(&cfg.networks, ssid);
    let removed = cfg.networks.len() < count;
    assert(config::network_models(cfg.networks@).len() == cfg.networks@.len());
    let ghost names = cfg.profiles.spec_names();
    proof {
        cfg.profiles.names_are_the_keys_in_order();
    }
    let mut i: usize = 0;
    while i < cfg.profiles.len()
        invariant
            cfg.wf(),
            i <= names.len(),
            names == cfg.profiles.spec_names(),
            names.no_duplicates(),
            forall|k: Seq<char>| names.contains(k) <==> #[trigger] before.profiles.contains_key(k),
            cfg@.settings == before.settings,
            cfg@.networks == without_network(before.networks, ssid@),
            forall|k: Seq<char>| #[trigger]
                cfg.profiles@.contains_key(k) <==> before.profiles.contains_key(k),
            forall|j: int|
                0 <= j < names.len() ==> cfg.profiles@[#[trigger] names[j]] == (if j < i {
                    forgotten_in(before.profiles[names[j]], ssid@)
                } else {
                    before.profiles[names[j]]
                }),
        decreases names.len() - i,
    {
        let p = cfg.profiles.at_mut(i);
        forget_in(p, ssid);
        assert(names.contains(names[i as int]));
        i += 1;
    }
    proof {
        let want = before.profiles.map_values(|p: ProfileModel| forgotten_in(p, ssid@));
        assert forall|k: Seq<char>| before.profiles.contains_key(k) implies #[trigger]
            cfg.profiles@[k] == want[k] by {
            let j = names.index_of(k);
            assert(names[j] == k);
        }
        assert(cfg.profiles@ =~= want);
        assert(cfg@ =~= forgotten(before, ssid@));
    }
    removed
}

/// After a network is forgotten no trace of it is left: it is neither saved, nor
/// in a profile's list, nor a bootstrap network.
pub proof fn a_forgotten_network_leaves_no_trace(cfg: ConfigModel, ssid: Seq<char>, name: Seq<char>)
    ensures
        config::network_in(forgotten(cfg, ssid).networks, ssid) is None,
        cfg.profiles.contains_key(name) ==> ({
            let p = forgotten(cfg, ssid).profiles[name];
            &&& !p.networks.contains(ssid)
            &&& p.bootstrap != Some(ssid)
        }),
        forgotten(cfg, ssid).profiles.dom() == cfg.profiles.dom(),
{
    lemma_without_network_len(cfg.networks, ssid);
    text::lemma_first_index(config::ssids(forgotten(cfg, ssid).networks), ssid);
    if cfg.profiles.contains_key(name) {
        lemma_without(cfg.profiles[name].networks, ssid, ssid);
    }
    assert(forgotten(cfg, ssid).profiles.dom() =~= cfg.profiles.dom());
}

proof fn lemma_without(list: Seq<Seq<char>>, s: Seq<char>, t: Seq<char>)
    ensures
        without(list, s).contains(t) <==> list.contains(t) && t != s,
    decreases list.len(),
{
    if list.len() > 0 {
        let rest = list.drop_last();
        let before = without(rest, s);
        let out = without(list, s);
        lemma_without(rest, s, t);
        if list.contains(t) && t != s {
            let j = list.index_of(t);
            if j < rest.len() {
                assert(rest[j] == t);
                let k = before.index_of(t);
                assert(out[k] == t);
            } else {
                assert(out[out.len() - 1] == t);
            }
        }
        if out.contains(t) {
            let k = out.index_of(t);
            if k < before.len() {
                assert(before[k] == t);
                let j = rest.index_of(t);
                assert(list[j] == t);
            } else {
                assert(list[list.len() - 1] == t);
            }
        }
    }
}

/// A network that is attached to a profile stands in its list, and those that
/// were there still do.
pub proof fn an_attached_network_is_in_the_list(
    list: Seq<Seq<char>>,
    ssid: Seq<char>,
    at: Option<usize>,
    other: Seq<char>,
)
    ensures
        placed(list, ssid, at).contains(ssid),
        list.contains(other) ==> placed(list, ssid, at).contains(other),
        at == Some(0usize) ==> placed(list, ssid, at)[0] == ssid,
{
    lemma_without(list, ssid, other);
    let rest = without(list, ssid);
    let i: int = match at {
        Some(n) => if n <= rest.len() {
            n as int
        } else {
            rest.len() as int
        },
        None => rest.len() as int,
    };
    let out = placed(list, ssid, at);
    assert(out[i] == ssid);
    if list.contains(other) && other != ssid {
        let k = rest.index_of(other);
        if k < i {
            assert(out[k] == other);
        } else {
            assert(out[k + 1] == other);
        }
    }
}

/// An added network is saved as it was given, on top of what was known of it;
/// every other network, every other profile and the settings are as they were.
pub proof fn adding_touches_one_network_and_one_profile(
    cfg: ConfigModel,
    ssid: Seq<char>,
    o: AddModel,
    other: Seq<char>,
    name: Seq<char>,
)
    ensures
        config::network_in(added(cfg, ssid, o).networks, ssid) == Some(
            refreshed(
                match config::network_in(cfg.networks, ssid) {
                    Some(n) => n,
                    None => blank_network(ssid),
                },
                o,
            ),
        ),
        other != ssid ==> config::network_in(added(cfg, ssid, o).networks, other)
            == config::network_in(cfg.networks, other),
        added(cfg, ssid, o).profiles.contains_key(name) == cfg.profiles.contains_key(name),
        o.to != Some(name) && cfg.profiles.contains_key(name) ==> added(cfg, ssid, o).profiles[name]
            == cfg.profiles[name],
        added(cfg, ssid, o).settings == cfg.settings,
{
    let nets = cfg.networks;
    let out = added(cfg, ssid, o).networks;
    let a = config::ssids(nets);
    let b = config::ssids(out);
    text::lemma_first_index(a, ssid);
    text::lemma_first_index(a, other);
    let i = text::first_index(a, ssid) as int;
    let j = text::first_index(a, other) as int;
    if i < nets.len() {
        assert(nets[i].ssid == a[i]);
        assert(b =~= a);
    } else {
        assert(b =~= a.push(ssid));
        text::lemma_first_index_is(b, ssid, i);
        if other != ssid {
            if j < nets.len() {
                text::lemma_first_index_is(b, other, j);
            } else {
                text::lemma_first_index_is(b, other, j + 1);
            }
        }
    }
}

proof fn lemma_without_network(nets: Seq<NetworkModel>, ssid: Seq<char>, other: Seq<char>)
    requires
        other != ssid,
    ensures
        config::network_in(without_network(nets, ssid), other) == config::network_in(nets, other),
    decreases nets.len(),
{
    if nets.len() > 0 {
        let rest = nets.drop_last();
        let n = nets.last();
        let before = without_network(rest, ssid);
        lemma_without_network(rest, ssid, other);
        lemma_network_in_push(rest, n, other);
        assert(nets =~= rest.push(n));
        lemma_network_in_push(before, n, other);
    }
}

proof fn lemma_network_in_push(nets: Seq<NetworkModel>, n: NetworkModel, ssid: Seq<char>)
    ensures
        config::network_in(nets.push(n), ssid) == (match config::network_in(nets, ssid) {
            Some(m) => Some(m),
            None => if n.ssid == ssid {
                Some(n)
            } else {
                None
            },
        }),
{
    let a = config::ssids(nets);
    let b = config::ssids(nets.push(n));
    assert(b =~= a.push(n.ssid));
    text::lemma_first_index(a, ssid);
    let i = text::first_index(a, ssid) as int;
    if i < nets.len() || n.ssid == ssid {
        text::lemma_first_index_is(b, ssid, i);
    } else {
        text::lemma_first_index_is(b, ssid, i + 1);
    }
}

/// Forgetting a network leaves every other one saved as it was, in the lists it
/// was in, and leaves the settings alone.
pub proof fn forgetting_touches_nothing_else(
    cfg: ConfigModel,
    ssid: Seq<char>,
    other: Seq<char>,
    name: Seq<char>,
)
    requires
        other != ssid,
    ensures
        config::network_in(forgotten(cfg, ssid).networks, other) == config::network_in(
            cfg.networks,
            other,
        ),
        cfg.profiles.contains_key(name) ==> ({
            let p = cfg.profiles[name];
            let q = forgotten(cfg, ssid).profiles[name];
            &&& q.networks.contains(other) == p.networks.contains(other)
            &&& p.bootstrap == Some(other) ==> q.bootstrap == Some(other)
            &&& q.tailscale == p.tailscale
            &&& q.detect_ssids == p.detect_ssids
        }),
        forgotten(cfg, ssid).settings == cfg.settings,
{
    lemma_without_network(cfg.networks, ssid, other);
    if cfg.profiles.contains_key(name) {
        lemma_without(cfg.profiles[name].networks, ssid, other);
    }
}

/// Whether the configuration still speaks of an SSID: as a saved network, in a
/// profile's list, or as a bootstrap network.
pub open spec fn spoken_of(cfg: ConfigModel, ssid: Seq<char>) -> bool {
    ||| config::ssids(cfg.networks).contains(ssid)
    ||| exists|name: Seq<char>| #[trigger]
        cfg.profiles.contains_key(name) && named_in(cfg.profiles[name], ssid)
}

/// Whether a profile speaks of an SSID as one to connect to.
pub open spec fn named_in(p: ProfileModel, ssid: Seq<char>) -> bool {
    p.networks.contains(ssid) || p.bootstrap == Some(ssid)
}

fn is_spoken_of(cfg: &Config, ssid: &str) -> (r: bool)
    requires
        cfg.wf(),
    ensures
        r == spoken_of(cfg@, ssid@),
{
    if config::find_network(&cfg.networks, ssid) < cfg.networks.len() {
        return true;
    }
    let ghost names = cfg.profiles.spec_names();
    proof {
        cfg.profiles.names_are_the_keys_in_order();
    }
    let mut i: usize = 0;
    while i < cfg.profiles.len()
        invariant
            cfg.wf(),
            i <= names.len(),
            names == cfg.profiles.spec_names(),
            !config::ssids(cfg@.networks).contains(ssid@),
            forall|k: Seq<char>| names.contains(k) <==> #[trigger] cfg@.profiles.contains_key(k),
            forall|j: int| 0 <= j < i ==> !named_in(cfg@.profiles[#[trigger] names[j]], ssid@),
        decreases names.len() - i,
    {
        let (name, p) = cfg.profiles.at(i);
        if text::list_has(&p.networks, ssid) || text::same_opt(&p.bootstrap, ssid) {
            assert(named_in(cfg@.profiles[name@], ssid@));
            return true;
        }
        i += 1;
    }
    proof {
        if spoken_of(cfg@, ssid@) {
            let k = choose|name: Seq<char>| #[trigger]
                cfg@.profiles.contains_key(name) && named_in(cfg@.profiles[name], ssid@);
            let j = names.index_of(k);
            assert(names[j] == k);
        }
    }
    false
}

/// The wireless profiles of NetworkManager that the configuration does not speak
/// of, in order.
pub open spec fn stale(cfg: ConfigModel, list: Seq<(Seq<char>, Seq<char>)>) -> Seq<
    (Seq<char>, Seq<char>),
>
    decreases list.len(),
{
    if list.len() == 0 {
        Seq::empty()
    } else {
        let before = stale(cfg, list.drop_last());
        if spoken_of(cfg, list.last().1) {
            before
        } else {
            before.push(list.last())
        }
    }
}

/// Of the wireless profiles of NetworkManager, as names with SSIDs, those whose
/// SSID the configuration no longer speaks of.
pub fn stale_profiles(cfg: &Config, list: &Vec<(String, String)>) -> (r: Vec<(String, String)>)
    requires
        cfg.wf(),
    ensures
        nm::pairs(r@) == stale(cfg@, nm::pairs(list@)),
{
    let ghost all = nm::pairs(list@);
    let mut out: Vec<(String, String)> = Vec::new();
    let mut i: usize = 0;
    assert(nm::pairs(out@) =~= stale(cfg@, all.take(0)));
    while i < list.len()
        invariant
            cfg.wf(),
            i <= list@.len(),
            all == nm::pairs(list@),
            nm::pairs(out@) == stale(cfg@, all.take(i as int)),
        decreases list@.len() - i,
    {
        assert(all.take(i + 1).drop_last() =~= all.take(i as int));
        assert(all.take(i + 1).last() == (list@[i as int].0@, list@[i as int].1@));
        if !is_spoken_of(cfg, list[i].1.as_str()) {
            let e = (list[i].0.clone(), list[i].1.clone());
            assert(nm::pairs(out@.push(e)) =~= nm::pairs(out@).push((e.0@, e.1@)));
            out.push(e);
        }
        i += 1;
    }
    assert(all.take(i as int) =~= all);
    out
}

/// Pruning spares every network that the configuration speaks of and takes every
/// other.
pub proof fn pruning_spares_what_is_spoken_of(
    cfg: ConfigModel,
    list: Seq<(Seq<char>, Seq<char>)>,
    e: (Seq<char>, Seq<char>),
)
    ensures
        stale(cfg, list).contains(e) <==> list.contains(e) && !spoken_of(cfg, e.1),
    decreases list.len(),
{
    if list.len() > 0 {
        let rest = list.drop_last();
        let before = stale(cfg, rest);
        let out = stale(cfg, list);
        pruning_spares_what_is_spoken_of(cfg, rest, e);
        if list.contains(e) && !spoken_of(cfg, e.1) {
            let j = list.index_of(e);
            if j < rest.len() {
                assert(rest[j] == e);
                let k = before.index_of(e);
                assert(out[k] == e);
            } else {
                assert(out[out.len() - 1] == e);
            }
        }
        if out.contains(e) {
            let k = out.index_of(e);
            if k < before.len() {
                assert(before[k] == e);
                let j = rest.index_of(e);
                assert(list[j] == e);
            } else {
                assert(list[list.len() - 1] == e);
            }
        }
    }
}

/// A profile to attach a network to has to exist, where one is given.
pub fn check_target(cfg: &Config, to: &Option<String>) -> (r: Result<(), String>)
    requires
        cfg.wf(),
    ensures
        backend::result_view(r) == (match text::opt_view(*to) {
            Some(name) => if cfg@.profiles.contains_key(name) {
                Ok(())
            } else {
                Err(unknown_profile(name))
            },
            None => Ok(()),
        }),
{
    match to {
        Some(name) => if cfg.profiles.contains_key(name.as_str()) {
            Ok(())
        } else {
            Err("unknown profile '".to_string().concat(name.as_str()).concat("'"))
        },
        None => Ok(()),
    }
}

/// The SSID that a number, as it was typed, picks from a scan.
pub open spec fn chosen(entries: Seq<ScanModel>, typed: Seq<char>) -> Result<Seq<char>, Seq<char>> {
    match selection(typed, entries.len()) {
        Some(i) => if entries[i as int].ssid.len() == 0 {
            Err("cannot select a hidden SSID here; use `breadcrumbs add`"@)
        } else {
            Ok(entries[i as int].ssid)
        },
        None => Err("invalid selection"@),
    }
}

/// The SSID that a number, as it was typed, picks from a scan.
pub fn choose_network(entries: &Vec<ScanEntry>, typed: &str) -> (r: Result<String, String>)
    ensures
        match r {
            Ok(ssid) => chosen(nm::scan_models(entries@), typed@) == Ok::<Seq<char>, Seq<char>>(
                ssid@,
            ),
            Err(e) => chosen(nm::scan_models(entries@), typed@) == Err::<Seq<char>, Seq<char>>(e@),
        },
{
    match parse_selection(typed, entries.len()) {
        Some(i) => {
            assert(nm::scan_models(entries@)[i as int] == entries@[i as int]@);
            if entries[i].ssid.as_str().is_empty() {
                Err("cannot select a hidden SSID here; use `breadcrumbs add`".to_string())
            } else {
                Ok(entries[i].ssid.clone())
            }
        },
        None => Err("invalid selection".to_string()),
    }
}

/// The network to join that was picked from a scan, with the password that was
/// typed for it.
pub fn picked_network(ssid: &str, password: String) -> (r: NetworkDef)
    ensures
        r@ == (NetworkModel {
            password: if password@.len() == 0 {
                None
            } else {
                Some(password@)
            },
            ..blank_network(ssid@)
        }),
{
    NetworkDef {
        ssid: ssid.to_string(),
        password: non_empty(password),
        dns: None,
        eap: None,
        identity: None,
        ca_cert: None,
        hidden: false,
    }
}

/// The configuration after a network was picked from a scan and joined. No
/// password is kept: NetworkManager holds the secret.
pub open spec fn picked(cfg: ConfigModel, ssid: Seq<char>, to: Option<Seq<char>>) -> ConfigModel {
    let nets = if config::ssids(cfg.networks).contains(ssid) {
        flow::password_cleared(cfg.networks, ssid)
    } else {
        cfg.networks.push(blank_network(ssid))
    };
    ConfigModel {
        networks: nets,
        profiles: match to {
            Some(name) => if cfg.profiles.contains_key(name)
                && !cfg.profiles[name].networks.contains(ssid) {
                let p = cfg.profiles[name];
                cfg.profiles.insert(
                    name,
                    ProfileModel { networks: p.networks.push(ssid), ..p },
                )
            } else {
                cfg.profiles
            },
            None => cfg.profiles,
        },
        ..cfg
    }
}

/// Keep a network that was picked from a scan and joined, and attach it to a
/// profile where one is given.
pub fn keep_picked(cfg: &mut Config, ssid: &str, to: &Option<String>)
    requires
        old(cfg).wf(),
    ensures
        final(cfg).wf(),
        final(cfg)@ == picked(old(cfg)@, ssid@, text::opt_view(*to)),
        final(cfg).profiles.spec_names() == old(cfg).profiles.spec_names(),
{
    let ghost before = cfg@;
    let i = config::find_network(&cfg.networks, ssid);
    if i < cfg.networks.len() {
        let mut n = cfg.networks[i].clone();
        assert(before.networks[i as int] == n@);
        n.password = None;
        assert(n@ =~= flow::without_password(before.networks[i as int]));
        cfg.networks.set(i, n);
        assert(config::network_models(cfg.networks@) =~= before.networks.update(i as int, n@));
    } else {
        let n = picked_network(ssid, String::new());
        assert(n@ =~= blank_network(ssid@));
        cfg.networks.push(n);
        assert(config::network_models(cfg.networks@) =~= before.networks.push(n@));
    }
    match to {
        Some(name) => match cfg.profiles.get_mut(name.as_str()) {
            Some(p) => {
                if !text::list_has(&p.networks, ssid) {
                    p.networks.push(ssid.to_string());
                    assert(p@ =~= ProfileModel {
                        networks: before.profiles[name@].networks.push(ssid@),
                        ..before.profiles[name@]
                    });
                } else {
                    assert(before.profiles.insert(name@, before.profiles[name@])
                        =~= before.profiles);
                }
            },
            None => {},
        },
        None => {},
    }
    assert(cfg@ =~= picked(before, ssid@, text::opt_view(*to)));
}

/// A picked network is saved without a password, whatever was saved before.
pub proof fn a_picked_network_is_saved_without_a_password(
    cfg: ConfigModel,
    ssid: Seq<char>,
    to: Option<Seq<char>>,
)
    ensures
        config::network_in(picked(cfg, ssid, to).networks, ssid) matches Some(n) && n.password
            is None,
{
    let nets = cfg.networks;
    let out = picked(cfg, ssid, to).networks;
    text::lemma_first_index(config::ssids(nets), ssid);
    if config::ssids(nets).contains(ssid) {
        assert(config::ssids(out) =~= config::ssids(nets));
    } else {
        assert(config::ssids(out) =~= config::ssids(nets).push(ssid));
        assert forall|j: int| 0 <= j < nets.len() implies config::ssids(out)[j] != ssid by {
            assert(config::ssids(nets).contains(config::ssids(nets)[j]));
        }
        text::lemma_first_index_is(config::ssids(out), ssid, nets.len() as int);
    }
}

/// What joining a saved network may come to, besides what the backend tells.
#[derive(Debug)]
pub enum Joined {
    /// No network is saved under that SSID, or there is no interface.
    Refused(String),
    /// Connecting failed.
    Failed(String),
    /// Connected; where a password was cleared, the files to save.
    Connected(Option<config::ConfigFiles>),
}

/// What is said of an SSID that no network is saved under.
pub open spec fn not_saved(ssid: Seq<char>) -> Seq<char> {
    "no saved network '"@ + ssid + "' — run `add` first"@
}

/// Joining with this interface may end so.
pub open spec fn joined_with<B: backend::Backend>(
    b: &B,
    iface: Seq<char>,
    before: ConfigModel,
    ssid: Seq<char>,
    n: NetworkModel,
    r: Joined,
    after: ConfigModel,
) -> bool {
    match r {
        Joined::Refused(_) => false,
        Joined::Failed(e) => flow::verifies(b, iface, n, before, Err(e@)) && after == before,
        Joined::Connected(files) => {
            &&& flow::verifies(b, iface, n, before, Ok(()))
            &&& files is Some == flow::has_password(before.networks, ssid)
            &&& match files {
                Some(f) => {
                    &&& after == config::owned(
                        ConfigModel {
                            networks: flow::password_cleared(before.networks, ssid),
                            ..before
                        },
                    )
                    &&& flow::in_files(f) == after
                    &&& f.main@.networks == Seq::<NetworkModel>::empty()
                },
                None => after == before,
            }
        },
    }
}

/// Joining a saved network may end so.
pub open spec fn may_join<B: backend::Backend>(
    b: &B,
    before: ConfigModel,
    ssid: Seq<char>,
    r: Joined,
    after: ConfigModel,
) -> bool {
    match config::network_in(before.networks, ssid) {
        None => r matches Joined::Refused(e) && e@ == not_saved(ssid) && after == before,
        Some(n) => exists|iface: Option<Seq<char>>| #[trigger]
            backend::gives_interface(b, before.settings.interface, iface) && match iface {
                None => r matches Joined::Refused(e) && e@ == "no Wi-Fi adapter found"@ && after
                    == before,
                Some(i) => call_ensures(B::radio_on, (b,), ()) && joined_with(
                    b,
                    i,
                    before,
                    ssid,
                    n,
                    r,
                    after,
                ),
            },
    }
}

/// Activate an already-saved network right now, independent of any profile. The
/// radio is switched on first. A local password that served is cleared.
pub fn join<B: backend::Backend>(b: &B, cfg: &mut Config, ssid: &str) -> (r: Joined)
    requires
        old(cfg).wf(),
    ensures
        final(cfg).wf(),
        may_join(b, old(cfg)@, ssid@, r, final(cfg)@),
{
    let net = match cfg.network(ssid) {
        Some(n) => n.clone(),
        None => {
            return Joined::Refused(
                "no saved network '".to_string().concat(ssid).concat("' — run `add` first"),
            );
        },
    };
    let preferred = match &cfg.settings.interface {
        Some(i) => Some(i.as_str()),
        None => None,
    };
    let found = b.wifi_interface(preferred);
    assert(backend::gives_interface(b, cfg@.settings.interface, text::opt_view(found)));
    let iface = match found {
        Some(i) => i,
        None => {
            return Joined::Refused("no Wi-Fi adapter found".to_string());
        },
    };
    b.radio_on();
    match flow::connect_and_verify(b, iface.as_str(), &net, cfg) {
        Ok(_) => {
            let files = flow::clear_password_if_used(cfg, ssid);
            assert(files is Some ==> flow::in_files(files->Some_0) =~= cfg@);
            Joined::Connected(files)
        },
        Err(e) => Joined::Failed(e),
    }
}

// ---- What is printed -----------------------------------------------------

/// A text in a colour.
pub open spec fn painted(colour: Seq<char>, s: Seq<char>) -> Seq<char> {
    colour + s + C_RESET@
}

pub(crate) fn paint(colour: &str, s: &str) -> (r: String)
    ensures
        r@ == painted(colour@, s@),
{
    colour.to_string().concat(s).concat(C_RESET)
}

/// What is printed about the outcome of a flow.
pub open spec fn outcome_line(profile: Seq<char>, o: OutcomeModel) -> Seq<char> {
    match o {
        OutcomeModel::Connected { ssid, note } => painted(C_GREEN@, "connected"@) + " "@ + painted(
            C_BOLD@,
            ssid,
        ) + " ("@ + profile + ")"@ + (match note {
            Some(n) => " "@ + painted(C_YELLOW@, "— "@ + n),
            None => Seq::empty(),
        }),
        OutcomeModel::TailscaleError { ssid, health } => painted(C_RED@, "tailscale error"@) + ": "@
            + tailscale::description(health) + " "@ + painted(
            C_DIM@,
            "(on "@ + (match ssid {
                Some(s) => s,
                None => "—"@,
            }) + ")"@,
        ),
        OutcomeModel::NoInterface => painted(C_RED@, "no Wi-Fi adapter"@) + " — hardware issue"@,
        OutcomeModel::NoNetworks => painted(C_RED@, "no known networks in range"@) + " (profile "@
            + profile + ")"@,
        OutcomeModel::UnknownProfile(p) => painted(C_RED@, "unknown profile"@) + ": "@ + p,
    }
}

fn or_dash(o: &Option<String>) -> (r: String)
    ensures
        r@ == (match text::opt_view(*o) {
            Some(s) => s,
            None => "—"@,
        }),
{
    match o {
        Some(s) => s.clone(),
        None => "—".to_string(),
    }
}

/// What is printed about the outcome of a flow.
pub fn show_outcome(profile: &str, o: &Outcome) -> (r: String)
    ensures
        r@ == outcome_line(profile@, o@),
{
    match o {
        Outcome::Connected { ssid, note } => {
            let head = paint(C_GREEN, "connected").concat(" ").concat(
                paint(C_BOLD, ssid.as_str()).as_str(),
            ).concat(" (").concat(profile).concat(")");
            match note {
                Some(n) => {
                    let tail = " ".to_string().concat(
                        paint(C_YELLOW, "— ".to_string().concat(n.as_str()).as_str()).as_str(),
                    );
                    head.concat(tail.as_str())
                },
                None => {
                    assert(head@ + Seq::<char>::empty() =~= head@);
                    head
                },
            }
        },
        Outcome::TailscaleError { ssid, health } => {
            let place = "(on ".to_string().concat(or_dash(ssid).as_str()).concat(")");
            paint(C_RED, "tailscale error").concat(": ").concat(
                health.describe().as_str(),
            ).concat(" ").concat(paint(C_DIM, place.as_str()).as_str())
        },
        Outcome::NoInterface => paint(C_RED, "no Wi-Fi adapter").concat(" — hardware issue"),
        Outcome::NoNetworks => paint(C_RED, "no known networks in range").concat(
            " (profile ",
        ).concat(profile).concat(")"),
        Outcome::UnknownProfile(p) => paint(C_RED, "unknown profile").concat(": ").concat(
            p.as_str(),
        ),
    }
}

/// Whether all is well: internet, an interface, and Tailscale where it is
/// required.
pub open spec fn all_well(s: StatusModel) -> bool {
    s.internet && s.iface is Some && (!s.tailscale_required || s.tailscale == Some(
        HealthModel::Healthy,
    ))
}

/// Whether all is well: internet, an interface, and Tailscale where it is
/// required.
pub fn healthy(s: &Status) -> (r: bool)
    ensures
        r == all_well(s@),
{
    let tailscale = match &s.tailscale {
        Some(h) => h.is_ok(),
        None => false,
    };
    s.internet && s.iface.is_some() && (!s.tailscale_required || tailscale)
}

/// The Tailscale state of a status, by name.
pub open spec fn status_tailscale(s: StatusModel) -> Option<Seq<char>> {
    match s.tailscale {
        Some(h) => Some(tailscale::state_name(h)),
        None => None,
    }
}

/// A detected profile for machines.
pub fn detected_json(p: &str) -> (r: Json)
    ensures
        r@ == JsonModel::Object(seq![("profile"@, JsonModel::Text(p@))]),
{
    let mut v: Vec<(String, Json)> = Vec::new();
    v.push(("profile".to_string(), Json::Text(p.to_string())));
    let r = Json::Object(v);
    proof {
        reveal_with_fuel(crate::json::model, 2);
        assert(r@->Object_0 =~= seq![("profile"@, JsonModel::Text(p@))]);
    }
    r
}

/// A status for machines.
pub open spec fn status_object(profile: Seq<char>, s: StatusModel) -> Seq<(Seq<char>, JsonModel)> {
    seq![
        ("profile"@, JsonModel::Text(profile)),
        ("iface"@, bread_events::text_or_null(s.iface)),
        ("ssid"@, bread_events::text_or_null(s.ssid)),
        ("ip"@, bread_events::text_or_null(s.ip)),
        ("internet"@, JsonModel::Bool(s.internet)),
        ("portal"@, JsonModel::Bool(s.portal)),
        ("tailscale_required"@, JsonModel::Bool(s.tailscale_required)),
        ("tailscale"@, bread_events::text_or_null(status_tailscale(s))),
        ("exit_node"@, JsonModel::Text(s.exit_node)),
        ("healthy"@, JsonModel::Bool(all_well(s))),
    ]
}

fn json_option(o: &Option<String>) -> (r: Json)
    ensures
        r@ == bread_events::text_or_null(text::opt_view(*o)),
{
    match o {
        Some(s) => Json::Text(s.clone()),
        None => Json::Null,
    }
}

/// A status for machines.
pub fn status_json(profile: &str, s: &Status) -> (r: Json)
    ensures
        r@ == JsonModel::Object(status_object(profile@, s@)),
{
    let mut v: Vec<(String, Json)> = Vec::new();
    let tailscale = match &s.tailscale {
        Some(h) => Some(h.state_str().to_string()),
        None => None,
    };
    v.push(("profile".to_string(), Json::Text(profile.to_string())));
    v.push(("iface".to_string(), json_option(&s.iface)));
    v.push(("ssid".to_string(), json_option(&s.ssid)));
    v.push(("ip".to_string(), json_option(&s.ip)));
    v.push(("internet".to_string(), Json::Bool(s.internet)));
    v.push(("portal".to_string(), Json::Bool(s.portal)));
    v.push(("tailscale_required".to_string(), Json::Bool(s.tailscale_required)));
    v.push(("tailscale".to_string(), json_option(&tailscale)));
    v.push(("exit_node".to_string(), Json::Text(s.exit_node.clone())));
    v.push(("healthy".to_string(), Json::Bool(healthy(s))));
    let r = Json::Object(v);
    proof {
        reveal_with_fuel(crate::json::model, 2);
        let want = status_object(profile@, s@);
        let got = r@->Object_0;
        assert(got.len() == want.len());
        assert(got[0] == want[0] && got[1] == want[1] && got[2] == want[2]);
        assert(got[3] == want[3] && got[4] == want[4] && got[5] == want[5]);
        assert(got[6] == want[6] && got[7] == want[7] && got[8] == want[8] && got[9] == want[9]);
        assert(got =~= want);
    }
    r
}

/// A green or red dot.
pub open spec fn dot(ok: bool) -> Seq<char> {
    painted(
        if ok {
            C_GREEN@
        } else {
            C_RED@
        },
        "●"@,
    )
}

fn show_dot(ok: bool) -> (r: String)
    ensures
        r@ == dot(ok),
{
    if ok {
        paint(C_GREEN, "●")
    } else {
        paint(C_RED, "●")
    }
}

/// The line about Tailscale in a status.
pub open spec fn tailscale_line(s: StatusModel) -> Seq<char> {
    match s.tailscale {
        Some(h) => "  tailscale   "@ + dot(h is Healthy || !s.tailscale_required) + " "@
            + tailscale::description(h) + " "@ + painted(
            C_DIM@,
            "(exit: "@ + s.exit_node + (if s.tailscale_required {
                ""@
            } else {
                ", optional"@
            }) + ")"@,
        ),
        None => "  tailscale   "@ + painted(C_DIM@, "not installed"@),
    }
}

/// A value, or what stands for its absence.
pub open spec fn value_or(o: Option<Seq<char>>, other: Seq<char>) -> Seq<char> {
    match o {
        Some(s) => s,
        None => other,
    }
}

/// A status for people, line by line.
pub open spec fn status_lines(profile: Seq<char>, s: StatusModel) -> Seq<Seq<char>> {
    seq![
        painted(C_BOLD@, "breadcrumbs"@),
        "  profile     "@ + painted(C_BOLD@, profile),
        "  adapter     "@ + value_or(s.iface, painted(C_RED@, "none"@)),
        "  ssid        "@ + value_or(s.ssid, painted(C_DIM@, "—"@)),
        "  ip          "@ + value_or(s.ip, painted(C_DIM@, "—"@)),
        "  internet    "@ + dot(s.internet) + " "@ + (if s.internet {
            "ok"@
        } else {
            "down"@
        }),
        tailscale_line(s),
        "  state       "@ + (if all_well(s) {
            painted(C_GREEN@, "healthy"@)
        } else {
            painted(C_YELLOW@, "needs attention"@) + " — run `breadcrumbs init`"@
        }),
    ]
}

fn or_else(o: &Option<String>, other: String) -> (r: String)
    ensures
        r@ == value_or(text::opt_view(*o), other@),
{
    match o {
        Some(s) => s.clone(),
        None => other,
    }
}

fn show_tailscale(s: &Status) -> (r: String)
    ensures
        r@ == tailscale_line(s@),
{
    match &s.tailscale {
        Some(h) => {
            let optional = if s.tailscale_required {
                ""
            } else {
                ", optional"
            };
            let exit = "(exit: ".to_string().concat(s.exit_node.as_str()).concat(optional).concat(
                ")",
            );
            "  tailscale   ".to_string().concat(
                show_dot(h.is_ok() || !s.tailscale_required).as_str(),
            ).concat(" ").concat(h.describe().as_str()).concat(" ").concat(
                paint(C_DIM, exit.as_str()).as_str(),
            )
        },
        None => "  tailscale   ".to_string().concat(paint(C_DIM, "not installed").as_str()),
    }
}

/// A status for people, line by line.
pub fn show_status(profile: &str, s: &Status) -> (r: Vec<String>)
    ensures
        text::views(r@) == status_lines(profile@, s@),
{
    let mut out: Vec<String> = Vec::new();
    out.push(paint(C_BOLD, "breadcrumbs"));
    out.push("  profile     ".to_string().concat(paint(C_BOLD, profile).as_str()));
    out.push(
        "  adapter     ".to_string().concat(or_else(&s.iface, paint(C_RED, "none")).as_str()),
    );
    out.push("  ssid        ".to_string().concat(or_else(&s.ssid, paint(C_DIM, "—")).as_str()));
    out.push("  ip          ".to_string().concat(or_else(&s.ip, paint(C_DIM, "—")).as_str()));
    out.push(
        "  internet    ".to_string().concat(show_dot(s.internet).as_str()).concat(" ").concat(
            if s.internet {
                "ok"
            } else {
                "down"
            },
        ),
    );
    out.push(show_tailscale(s));
    let state = if healthy(s) {
        paint(C_GREEN, "healthy")
    } else {
        paint(C_YELLOW, "needs attention").concat(" — run `breadcrumbs init`")
    };
    out.push("  state       ".to_string().concat(state.as_str()));
    assert(text::views(out@) =~= status_lines(profile@, s@));
    out
}

/// A profile in the list of profiles.
pub open spec fn profile_entry(name: Seq<char>, current: Seq<char>) -> Seq<char> {
    (if name == current {
        "*"@
    } else {
        " "@
    }) + " "@ + name
}

/// The profiles by name, the active one marked.
pub fn show_profiles(cfg: &Config, current: &str) -> (r: Vec<String>)
    requires
        cfg.wf(),
    ensures
        text::views(r@) == cfg.profiles.spec_names().map_values(
            |n: Seq<char>| profile_entry(n, current@),
        ),
{
    let ghost want = cfg.profiles.spec_names().map_values(
        |n: Seq<char>| profile_entry(n, current@),
    );
    let mut out: Vec<String> = Vec::new();
    let mut i: usize = 0;
    assert(text::views(out@) =~= want.take(0));
    while i < cfg.profiles.len()
        invariant
            cfg.wf(),
            i <= want.len(),
            want == cfg.profiles.spec_names().map_values(
                |n: Seq<char>| profile_entry(n, current@),
            ),
            text::views(out@) == want.take(i as int),
        decreases want.len() - i,
    {
        let (name, p) = cfg.profiles.at(i);
        let mark = if text::same(name.as_str(), current) {
            "*"
        } else {
            " "
        };
        let line = mark.to_string().concat(" ").concat(name.as_str());
        assert(line@ == want[i as int]);
        assert(want.take(i + 1) =~= want.take(i as int).push(want[i as int]));
        out.push(line);
        i += 1;
    }
    assert(want.take(i as int) =~= want);
    out
}

/// The settings in the listing.
pub open spec fn settings_lines(cfg: ConfigModel) -> Seq<Seq<char>> {
    seq![
        painted(C_BOLD@, "settings"@),
        "  dns         "@ + cfg.settings.dns,
        "  exit_node   "@ + cfg.settings.exit_node,
        "  default     "@ + cfg.settings.default_profile,
        "  watch every "@ + text::decimal(cfg.settings.watch_interval as nat) + "s"@,
    ]
}

/// What the listing shows for the password of a network: the password where
/// asked for, or a mask; without a local one, who has it.
pub open spec fn password_shown(n: NetworkModel, show: bool) -> Seq<char> {
    match n.password {
        Some(p) => if show {
            p
        } else {
            "••••••••"@
        },
        None => painted(C_DIM@, "managed by NetworkManager"@),
    }
}

/// A network in the listing.
pub open spec fn network_line(n: NetworkModel, show: bool) -> Seq<char> {
    "  "@ + painted(C_BOLD@, n.ssid) + "  "@ + painted(
        C_DIM@,
        password_shown(n, show) + (if n.hidden {
            "  (hidden)"@
        } else {
            ""@
        }),
    )
}

/// The priority list of a profile, for people.
pub open spec fn priority(p: ProfileModel) -> Seq<char> {
    text::joined(
        if p.include_all_known {
            p.networks.push("…all other known networks"@)
        } else {
            p.networks
        },
        " > "@,
    )
}

/// A profile in the listing.
pub open spec fn profile_lines(
    cfg: ConfigModel,
    name: Seq<char>,
    current: Seq<char>,
) -> Seq<Seq<char>> {
    let p = cfg.profiles[name];
    seq![
        (if name == current {
            painted(C_GREEN@, "*"@)
        } else {
            " "@
        }) + " "@ + painted(C_BOLD@, name),
    ] + (match p.bootstrap {
        Some(b) => seq!["    bootstrap   "@ + b],
        None => Seq::empty(),
    }) + (if p.tailscale {
        seq![
            "    tailscale   required (exit: "@ + (match p.exit_node {
                Some(e) => e,
                None => cfg.settings.exit_node,
            }) + ")"@,
        ]
    } else {
        Seq::empty()
    }) + seq!["    priority    "@ + priority(p)]
}

/// The profiles in the listing.
pub open spec fn all_profile_lines(
    cfg: ConfigModel,
    names: Seq<Seq<char>>,
    current: Seq<char>,
) -> Seq<Seq<char>>
    decreases names.len(),
{
    if names.len() == 0 {
        Seq::empty()
    } else {
        all_profile_lines(cfg, names.drop_last(), current) + profile_lines(
            cfg,
            names.last(),
            current,
        )
    }
}

/// The listing of a configuration, line by line.
pub open spec fn listing(
    cfg: ConfigModel,
    names: Seq<Seq<char>>,
    show: bool,
    current: Seq<char>,
) -> Seq<Seq<char>> {
    settings_lines(cfg) + seq![""@, painted(C_BOLD@, "networks"@)] + cfg.networks.map_values(
        |n: NetworkModel| network_line(n, show),
    ) + seq![""@, painted(C_BOLD@, "profiles"@)] + all_profile_lines(cfg, names, current)
}

fn show_settings(cfg: &Config) -> (r: Vec<String>)
    ensures
        text::views(r@) == settings_lines(cfg@),
{
    let mut out: Vec<String> = Vec::new();
    out.push(paint(C_BOLD, "settings"));
    out.push("  dns         ".to_string().concat(cfg.settings.dns.as_str()));
    out.push("  exit_node   ".to_string().concat(cfg.settings.exit_node.as_str()));
    out.push("  default     ".to_string().concat(cfg.settings.default_profile.as_str()));
    out.push(
        "  watch every ".to_string().concat(
            text::to_decimal(cfg.settings.watch_interval).as_str(),
        ).concat("s"),
    );
    assert(text::views(out@) =~= settings_lines(cfg@));
    out
}

fn show_network(n: &NetworkDef, show: bool) -> (r: String)
    ensures
        r@ == network_line(n@, show),
{
    let password = match &n.password {
        Some(p) => if show {
            p.clone()
        } else {
            mask(p.as_str())
        },
        None => paint(C_DIM, "managed by NetworkManager"),
    };
    let tail = password.concat(
        if n.hidden {
            "  (hidden)"
        } else {
            ""
        },
    );
    "  ".to_string().concat(paint(C_BOLD, n.ssid.as_str()).as_str()).concat("  ").concat(
        paint(C_DIM, tail.as_str()).as_str(),
    )
}

fn show_profile(cfg: &Config, name: &str, p: &Profile, current: &str, out: &mut Vec<String>)
    requires
        cfg@.profiles[name@] == p@,
    ensures
        text::views(final(out)@) == text::views(old(out)@) + profile_lines(
            cfg@,
            name@,
            current@,
        ),
{
    let ghost start = text::views(out@);
    let mark = if text::same(name, current) {
        paint(C_GREEN, "*")
    } else {
        " ".to_string()
    };
    out.push(mark.concat(" ").concat(paint(C_BOLD, name).as_str()));
    match &p.bootstrap {
        Some(b) => out.push("    bootstrap   ".to_string().concat(b.as_str())),
        None => {},
    }
    if p.tailscale {
        let exit = match &p.exit_node {
            Some(e) => e.as_str(),
            None => cfg.settings.exit_node.as_str(),
        };
        out.push("    tailscale   required (exit: ".to_string().concat(exit).concat(")"));
    }
    let mut order = text::copy_list(&p.networks);
    if p.include_all_known {
        order.push("…all other known networks".to_string());
    }
    out.push("    priority    ".to_string().concat(text::join(&order, " > ").as_str()));
    assert(text::views(out@) =~= start + profile_lines(cfg@, name@, current@));
}

/// The listing of a configuration, line by line.
pub fn show_listing(cfg: &Config, show_passwords: bool, current: &str) -> (r: Vec<String>)
    requires
        cfg.wf(),
    ensures
        text::views(r@) == listing(
            cfg@,
            cfg.profiles.spec_names(),
            show_passwords,
            current@,
        ),
{
    let ghost names = cfg.profiles.spec_names();
    let mut out = show_settings(cfg);
    out.push("".to_string());
    out.push(paint(C_BOLD, "networks"));
    let ghost head = settings_lines(cfg@) + seq![""@, painted(C_BOLD@, "networks"@)];
    assert(text::views(out@) =~= head);
    let ghost nets = cfg@.networks.map_values(|n: NetworkModel| network_line(n, show_passwords));
    let mut i: usize = 0;
    assert(head + nets.take(0) =~= head);
    while i < cfg.networks.len()
        invariant
            i <= cfg.networks@.len(),
            nets == cfg@.networks.map_values(|n: NetworkModel| network_line(n, show_passwords)),
            text::views(out@) == head + nets.take(i as int),
        decreases cfg.networks@.len() - i,
    {
        let line = show_network(&cfg.networks[i], show_passwords);
        assert(line@ == nets[i as int]);
        assert(head + nets.take(i + 1) =~= (head + nets.take(i as int)).push(nets[i as int]));
        out.push(line);
        i += 1;
    }
    assert(nets.take(i as int) =~= nets);
    out.push("".to_string());
    out.push(paint(C_BOLD, "profiles"));
    let ghost middle = head + nets + seq![""@, painted(C_BOLD@, "profiles"@)];
    assert(text::views(out@) =~= middle);
    let mut j: usize = 0;
    assert(names.take(0).len() == 0);
    assert(middle + all_profile_lines(cfg@, names.take(0), current@) =~= middle);
    while j < cfg.profiles.len()
        invariant
            cfg.wf(),
            j <= names.len(),
            names == cfg.profiles.spec_names(),
            text::views(out@) == middle + all_profile_lines(
                cfg@,
                names.take(j as int),
                current@,
            ),
        decreases names.len() - j,
    {
        let (name, p) = cfg.profiles.at(j);
        let ghost before = all_profile_lines(cfg@, names.take(j as int), current@);
        assert(names.take(j + 1).drop_last() =~= names.take(j as int));
        assert(names.take(j + 1).last() == name@);
        show_profile(cfg, name.as_str(), p, current, &mut out);
        assert(middle + (before + profile_lines(cfg@, name@, current@)) =~= (middle + before)
            + profile_lines(cfg@, name@, current@));
        j += 1;
    }
    assert(names.take(j as int) =~= names);
    out
}

/// Unless passwords are asked for, the listing is the same whatever the
/// passwords are, so long as the same networks have one.
pub proof fn masked_listings_tell_nothing(
    a: ConfigModel,
    b: ConfigModel,
    names: Seq<Seq<char>>,
    current: Seq<char>,
)
    requires
        a.settings == b.settings,
        a.profiles == b.profiles,
        a.networks.len() == b.networks.len(),
        forall|i: int|
            #![trigger a.networks[i]]
            0 <= i < a.networks.len() ==> a.networks[i].ssid == b.networks[i].ssid
                && a.networks[i].hidden == b.networks[i].hidden && (a.networks[i].password is Some)
                == (b.networks[i].password is Some),
    ensures
        listing(a, names, false, current) == listing(b, names, false, current),
{
    let la = a.networks.map_values(|n: NetworkModel| network_line(n, false));
    let lb = b.networks.map_values(|n: NetworkModel| network_line(n, false));
    assert forall|i: int| 0 <= i < la.len() implies la[i] == lb[i] by {
        assert(a.networks[i].ssid == b.networks[i].ssid);
    }
    assert(la =~= lb);
    lemma_profile_lines_alike(a, b, names, current);
}

proof fn lemma_profile_lines_alike(
    a: ConfigModel,
    b: ConfigModel,
    names: Seq<Seq<char>>,
    current: Seq<char>,
)
    requires
        a.settings == b.settings,
        a.profiles == b.profiles,
    ensures
        all_profile_lines(a, names, current) == all_profile_lines(b, names, current),
    decreases names.len(),
{
    if names.len() > 0 {
        lemma_profile_lines_alike(a, b, names.drop_last(), current);
    }
}

/// The saved networks that are in sight, in order.
pub open spec fn in_sight(nets: Seq<NetworkModel>, visible: Seq<Seq<char>>) -> Seq<Seq<char>>
    decreases nets.len(),
{
    if nets.len() == 0 {
        Seq::empty()
    } else {
        let before = in_sight(nets.drop_last(), visible);
        if visible.contains(nets.last().ssid) {
            before.push(nets.last().ssid)
        } else {
            before
        }
    }
}

fn list_in_sight(nets: &Vec<NetworkDef>, visible: &Vec<String>) -> (r: Vec<String>)
    ensures
        text::views(r@) == in_sight(config::network_models(nets@), text::views(visible@)),
{
    let ghost all = config::network_models(nets@);
    let mut out: Vec<String> = Vec::new();
    let mut i: usize = 0;
    assert(text::views(out@) =~= in_sight(all.take(0), text::views(visible@)));
    while i < nets.len()
        invariant
            i <= nets@.len(),
            all == config::network_models(nets@),
            text::views(out@) == in_sight(all.take(i as int), text::views(visible@)),
        decreases nets@.len() - i,
    {
        assert(all.take(i + 1).drop_last() =~= all.take(i as int));
        assert(all.take(i + 1).last() == nets@[i as int]@);
        if text::list_has(visible, nets[i].ssid.as_str()) {
            out.push(nets[i].ssid.clone());
        }
        i += 1;
    }
    assert(all.take(i as int) =~= all);
    out
}

/// What was found out for a diagnosis, besides the status.
#[derive(Debug)]
pub struct Findings {
    /// NetworkManager answers.
    pub network_manager: bool,
    /// There is a `tailscale` program.
    pub tailscale: bool,
    /// The SSIDs in sight.
    pub visible: Vec<String>,
}

/// The last lines of a diagnosis.
pub open spec fn closing_lines() -> Seq<Seq<char>> {
    seq![""@, "Full report: "@ + painted(C_DIM@, "breadcrumbs doctor --full"@)]
}

/// A diagnosis, line by line.
pub open spec fn diagnosis(
    cfg: ConfigModel,
    profile: Seq<char>,
    s: StatusModel,
    f: Findings,
) -> Seq<Seq<char>> {
    let near = in_sight(cfg.networks, text::views(f.visible@));
    seq![
        painted(C_BOLD@, "breadcrumbs doctor"@) + "  (profile "@ + profile + ")"@,
        "  network-manager "@ + (if f.network_manager {
            "present (D-Bus)"@
        } else {
            "MISSING"@
        }),
        "  tailscale   "@ + (if f.tailscale {
            "present"@
        } else {
            "absent"@
        }),
        "  adapter     "@ + value_or(s.iface, "none"@),
        "  ssid        "@ + value_or(s.ssid, "—"@),
        "  ip          "@ + value_or(s.ip, "—"@),
        "  internet    "@ + (if s.internet {
            "ok"@
        } else {
            "DOWN"@
        }),
    ] + (match s.tailscale {
        Some(h) => seq![
            "  tailscale   "@ + tailscale::description(h) + " (exit "@ + s.exit_node + ")"@,
        ],
        None => Seq::empty(),
    }) + (if s.iface is Some {
        seq![
            "  in range    "@ + (if near.len() == 0 {
                "none of your saved networks"@
            } else {
                text::joined(near, ", "@)
            }),
        ]
    } else {
        Seq::empty()
    }) + closing_lines()
}

/// A diagnosis, line by line.
pub fn show_diagnosis(cfg: &Config, profile: &str, s: &Status, f: &Findings) -> (r: Vec<String>)
    ensures
        text::views(r@) == diagnosis(cfg@, profile@, s@, *f),
{
    let mut out: Vec<String> = Vec::new();
    out.push(
        paint(C_BOLD, "breadcrumbs doctor").concat("  (profile ").concat(profile).concat(")"),
    );
    out.push(
        "  network-manager ".to_string().concat(
            if f.network_manager {
                "present (D-Bus)"
            } else {
                "MISSING"
            },
        ),
    );
    out.push(
        "  tailscale   ".to_string().concat(
            if f.tailscale {
                "present"
            } else {
                "absent"
            },
        ),
    );
    out.push(
        "  adapter     ".to_string().concat(or_else(&s.iface, "none".to_string()).as_str()),
    );
    out.push("  ssid        ".to_string().concat(or_dash(&s.ssid).as_str()));
    out.push("  ip          ".to_string().concat(or_dash(&s.ip).as_str()));
    out.push(
        "  internet    ".to_string().concat(
            if s.internet {
                "ok"
            } else {
                "DOWN"
            },
        ),
    );
    match &s.tailscale {
        Some(h) => out.push(
            "  tailscale   ".to_string().concat(h.describe().as_str()).concat(" (exit ").concat(
                s.exit_node.as_str(),
            ).concat(")"),
        ),
        None => {},
    }
    if s.iface.is_some() {
        let near = list_in_sight(&cfg.networks, &f.visible);
        let shown = if near.len() == 0 {
            "none of your saved networks".to_string()
        } else {
            text::join(&near, ", ")
        };
        out.push("  in range    ".to_string().concat(shown.as_str()));
    }
    out.push("".to_string());
    out.push(
        "Full report: ".to_string().concat(paint(C_DIM, "breadcrumbs doctor --full").as_str()),
    );
    assert(text::views(out@) =~= diagnosis(cfg@, profile@, s@, *f));
    out
}

/// Whether something was removed, in a word or two.
pub open spec fn removal(removed: bool) -> Seq<char> {
    if removed {
        "removed"@
    } else {
        "not present"@
    }
}

/// What is printed when a network was forgotten.
pub fn show_forgotten(ssid: &str, saved: bool, in_manager: bool) -> (r: String)
    ensures
        r@ == painted(C_GREEN@, "forgot"@) + " "@ + ssid@ + " (config: "@ + removal(saved)
            + ", NetworkManager: "@ + removal(in_manager) + ")"@,
{
    let a = if saved {
        "removed"
    } else {
        "not present"
    };
    let b = if in_manager {
        "removed"
    } else {
        "not present"
    };
    paint(C_GREEN, "forgot").concat(" ").concat(ssid).concat(" (config: ").concat(a).concat(
        ", NetworkManager: ",
    ).concat(b).concat(")")
}

/// What is printed when a wireless profile is pruned, or would be.
pub fn show_pruned(name: &str, ssid: &str, dry_run: bool) -> (r: String)
    ensures
        r@ == (if dry_run {
            painted(C_DIM@, "would remove"@)
        } else {
            painted(C_GREEN@, "removed"@)
        }) + " "@ + name@ + " ("@ + ssid@ + ")"@,
{
    let head = if dry_run {
        paint(C_DIM, "would remove")
    } else {
        paint(C_GREEN, "removed")
    };
    head.concat(" ").concat(name).concat(" (").concat(ssid).concat(")")
}

/// A number, moved right to a width of two.
pub open spec fn right_aligned(n: nat) -> Seq<char> {
    if n < 10 {
        " "@ + text::decimal(n)
    } else {
        text::decimal(n)
    }
}

/// An entry of a scan, with its number.
pub open spec fn scan_line(n: nat, e: ScanModel) -> Seq<char> {
    right_aligned(n) + ". "@ + painted(
        C_BOLD@,
        if e.ssid.len() == 0 {
            "<hidden>"@
        } else {
            e.ssid
        },
    ) + " "@ + painted(C_DIM@, "sig "@ + e.signal + "  "@ + e.security)
}

fn show_scan_entry(n: u64, e: &ScanEntry) -> (r: String)
    ensures
        r@ == scan_line(n as nat, e@),
{
    let number = if n < 10 {
        " ".to_string().concat(text::to_decimal(n).as_str())
    } else {
        text::to_decimal(n)
    };
    let ssid = if e.ssid.as_str().is_empty() {
        "<hidden>"
    } else {
        e.ssid.as_str()
    };
    let tail = "sig ".to_string().concat(e.signal.as_str()).concat("  ").concat(
        e.security.as_str(),
    );
    number.concat(". ").concat(paint(C_BOLD, ssid).as_str()).concat(" ").concat(
        paint(C_DIM, tail.as_str()).as_str(),
    )
}

/// The entries of a scan, numbered from one.
pub open spec fn scan_lines(entries: Seq<ScanModel>) -> Seq<Seq<char>> {
    Seq::new(entries.len(), |i: int| scan_line((i + 1) as nat, entries[i]))
}

/// The entries of a scan, numbered from one.
pub fn show_scan(entries: &Vec<ScanEntry>) -> (r: Vec<String>)
    ensures
        text::views(r@) == scan_lines(nm::scan_models(entries@)),
{
    let mut out: Vec<String> = Vec::new();
    let mut i: usize = 0;
    while i < entries.len()
        invariant
            i <= entries@.len(),
            out@.len() == i,
            forall|j: int|
                0 <= j < i ==> (#[trigger] out@[j])@ == scan_line((j + 1) as nat, entries@[j]@),
        decreases entries@.len() - i,
    {
        out.push(show_scan_entry(i as u64 + 1, &entries[i]));
        i += 1;
    }
    assert(text::views(out@) =~= scan_lines(nm::scan_models(entries@)));
    out
}

/// The unit of the watcher service, for a program at this path.
pub open spec fn unit_text(bin: Seq<char>) -> Seq<char> {
    "[Unit]\nDescription=breadcrumbs Wi-Fi state machine watcher\nAfter=network.target NetworkManager.service graphical-session.target\nWants=network.target graphical-session.target\n\n[Service]\nType=simple\nEnvironment=PATH=/usr/local/bin:/usr/bin:/bin\nExecStart="@
        + bin
        + " watch\nRestart=always\nRestartSec=5\nNice=5\n\n[Install]\nWantedBy=default.target\n"@
}

/// The unit of the watcher service. Started after the graphical session, so that
/// it has what notifications and a browser need, and with a path of its own,
/// since such units do not get the one of the login shell.
pub fn service_unit(bin: &str) -> (r: String)
    ensures
        r@ == unit_text(bin@),
{
    "[Unit]\nDescription=breadcrumbs Wi-Fi state machine watcher\nAfter=network.target NetworkManager.service graphical-session.target\nWants=network.target graphical-session.target\n\n[Service]\nType=simple\nEnvironment=PATH=/usr/local/bin:/usr/bin:/bin\nExecStart=".to_string().concat(
        bin,
    ).concat(
        " watch\nRestart=always\nRestartSec=5\nNice=5\n\n[Install]\nWantedBy=default.target\n",
    )
}

// ---- What holds of every command -----------------------------------------

/// Whether an SSID is among the signals, at whatever place.
pub open spec fn visible(signals: Seq<(Seq<char>, i32)>, ssid: Seq<char>) -> bool {
    exists|k: int| 0 <= k < signals.len() && (#[trigger] signals[k]).0 == ssid
}

proof fn lemma_markers_add(a: Seq<Seq<char>>, b: Seq<Seq<char>>, signals: Seq<(Seq<char>, i32)>)
    ensures
        markers_seen(a + b, signals) == markers_seen(a, signals) + markers_seen(b, signals),
    decreases b.len(),
{
    if b.len() > 0 {
        lemma_markers_add(a, b.drop_last(), signals);
        assert((a + b).drop_last() =~= a + b.drop_last());
        assert((a + b).last() == b.last());
    } else {
        assert(a + b =~= a);
    }
}

/// The markers in sight are counted wherever they stand in their list: their
/// number is that of the positions whose SSID is visible, so it does not depend on
/// the order, and one visible marker is enough for it to be positive.
pub proof fn markers_count_wherever_they_stand(
    a: Seq<Seq<char>>,
    b: Seq<Seq<char>>,
    signals: Seq<(Seq<char>, i32)>,
    i: int,
)
    ensures
        markers_seen(a, signals) == a.filter(|m: Seq<char>| visible(signals, m)).len(),
        markers_seen(a + b, signals) == markers_seen(b + a, signals),
        0 <= i < a.len() && visible(signals, a[i]) ==> markers_seen(a, signals) > 0,
        0 <= i < a.len() && !visible(signals, a[i]) ==> markers_seen(a, signals) < a.len(),
    decreases a.len(),
{
    reveal(Seq::filter);
    lemma_markers_add(a, b, signals);
    lemma_markers_add(b, a, signals);
    if a.len() > 0 {
        let rest = a.drop_last();
        markers_count_wherever_they_stand(rest, b, signals, i);
        flow::in_range_means_among_the_signals(signals, a.last());
        if 0 <= i < rest.len() {
            assert(rest[i] == a[i]);
        }
        lemma_markers_bound(rest, signals);
    }
}

proof fn lemma_markers_bound(markers: Seq<Seq<char>>, signals: Seq<(Seq<char>, i32)>)
    ensures
        markers_seen(markers, signals) <= markers.len(),
    decreases markers.len(),
{
    if markers.len() > 0 {
        lemma_markers_bound(markers.drop_last(), signals);
    }
}

proof fn lemma_first_best(
    names: Seq<Seq<char>>,
    profiles: Map<Seq<char>, ProfileModel>,
    signals: Seq<(Seq<char>, i32)>,
    i: int,
)
    requires
        0 <= i < names.len(),
        markers_seen(profiles[names[i]].detect_ssids, signals) > 0,
        forall|j: int|
            0 <= j < i ==> markers_seen(profiles[#[trigger] names[j]].detect_ssids, signals)
                < markers_seen(profiles[names[i]].detect_ssids, signals),
        forall|j: int|
            i < j < names.len() ==> markers_seen(
                profiles[#[trigger] names[j]].detect_ssids,
                signals,
            ) <= markers_seen(profiles[names[i]].detect_ssids, signals),
    ensures
        best_match(names, profiles, signals) == Some(
            (names[i], markers_seen(profiles[names[i]].detect_ssids, signals)),
        ),
    decreases names.len(),
{
    let rest = names.drop_last();
    if i < rest.len() {
        assert forall|j: int| 0 <= j < i implies markers_seen(
            profiles[#[trigger] rest[j]].detect_ssids,
            signals,
        ) < markers_seen(profiles[rest[i]].detect_ssids, signals) by {
            assert(rest[j] == names[j]);
        }
        assert forall|j: int| i < j < rest.len() implies markers_seen(
            profiles[#[trigger] rest[j]].detect_ssids,
            signals,
        ) <= markers_seen(profiles[rest[i]].detect_ssids, signals) by {
            assert(rest[j] == names[j]);
        }
        lemma_first_best(rest, profiles, signals, i);
        assert(names.last() == names[names.len() - 1]);
    } else {
        lemma_best_below(
            rest,
            profiles,
            signals,
            markers_seen(profiles[names[i]].detect_ssids, signals),
        );
    }
}

proof fn lemma_best_below(
    names: Seq<Seq<char>>,
    profiles: Map<Seq<char>, ProfileModel>,
    signals: Seq<(Seq<char>, i32)>,
    bound: nat,
)
    requires
        bound > 0,
        forall|j: int|
            0 <= j < names.len() ==> markers_seen(
                profiles[#[trigger] names[j]].detect_ssids,
                signals,
            ) < bound,
    ensures
        best_match(names, profiles, signals) matches Some((_, c)) ==> c < bound,
        bound == 1 ==> best_match(names, profiles, signals) is None,
    decreases names.len(),
{
    if names.len() > 0 {
        let rest = names.drop_last();
        assert forall|j: int| 0 <= j < rest.len() implies markers_seen(
            profiles[#[trigger] rest[j]].detect_ssids,
            signals,
        ) < bound by {
            assert(rest[j] == names[j]);
        }
        lemma_best_below(rest, profiles, signals, bound);
        assert(names.last() == names[names.len() - 1]);
    }
}

/// The profile with the most markers in sight is detected, the first of several
/// with as many.
pub proof fn the_first_of_equals_is_detected(
    names: Seq<Seq<char>>,
    cfg: ConfigModel,
    signals: Seq<(Seq<char>, i32)>,
    i: int,
)
    requires
        0 <= i < names.len(),
        markers_seen(cfg.profiles[names[i]].detect_ssids, signals) > 0,
        forall|j: int|
            0 <= j < i ==> markers_seen(cfg.profiles[#[trigger] names[j]].detect_ssids, signals)
                < markers_seen(cfg.profiles[names[i]].detect_ssids, signals),
        forall|j: int|
            i < j < names.len() ==> markers_seen(
                cfg.profiles[#[trigger] names[j]].detect_ssids,
                signals,
            ) <= markers_seen(cfg.profiles[names[i]].detect_ssids, signals),
    ensures
        detected(names, cfg, signals) == Some(names[i]),
{
    lemma_first_best(names, cfg.profiles, signals, i);
}

/// Where no profile has a marker in sight, the default profile is taken, if there
/// is one of that name.
pub proof fn without_markers_the_default_is_taken(
    names: Seq<Seq<char>>,
    cfg: ConfigModel,
    signals: Seq<(Seq<char>, i32)>,
)
    requires
        forall|j: int, k: int|
            #![trigger names[j], signals[k]]
            0 <= j < names.len() && 0 <= k < signals.len()
                ==> !cfg.profiles[names[j]].detect_ssids.contains(signals[k].0),
    ensures
        detected(names, cfg, signals) == (if cfg.profiles.contains_key(
            cfg.settings.default_profile,
        ) {
            Some(cfg.settings.default_profile)
        } else {
            None
        }),
{
    assert forall|j: int| 0 <= j < names.len() implies markers_seen(
        cfg.profiles[#[trigger] names[j]].detect_ssids,
        signals,
    ) < 1 by {
        lemma_none_seen(cfg.profiles[names[j]].detect_ssids, signals);
    }
    lemma_best_below(names, cfg.profiles, signals, 1);
}

proof fn lemma_none_seen(markers: Seq<Seq<char>>, signals: Seq<(Seq<char>, i32)>)
    requires
        forall|k: int|
            0 <= k < signals.len() ==> !markers.contains((#[trigger] signals[k]).0),
    ensures
        markers_seen(markers, signals) == 0,
    decreases markers.len(),
{
    if markers.len() > 0 {
        let rest = markers.drop_last();
        flow::in_range_means_among_the_signals(signals, markers.last());
        assert forall|k: int| 0 <= k < signals.len() implies !rest.contains(
            (#[trigger] signals[k]).0,
        ) by {
            if rest.contains(signals[k].0) {
                let j = rest.index_of(signals[k].0);
                assert(markers[j] == signals[k].0);
            }
        }
        lemma_none_seen(rest, signals);
        if visible(signals, markers.last()) {
            let k = choose|k: int| 0 <= k < signals.len() && (#[trigger] signals[k]).0
                == markers.last();
            assert(markers[markers.len() - 1] == signals[k].0);
        }
    }
}

/// What is given for a network that is added is saved; what is not given stays as
/// it was saved before. Only the password is not kept: it is what is given, or
/// none.
pub proof fn what_is_given_is_saved(cfg: ConfigModel, ssid: Seq<char>, o: AddModel, i: int, j: int)
    requires
        0 <= i < cfg.networks.len(),
        cfg.networks[i].ssid == ssid,
        forall|k: int| 0 <= k < i ==> (#[trigger] cfg.networks[k]).ssid != ssid,
    ensures
        ({
            let before = cfg.networks[i];
            let after = added(cfg, ssid, o).networks[i];
            &&& added(cfg, ssid, o).networks.len() == cfg.networks.len()
            &&& 0 <= j < cfg.networks.len() && j != i ==> added(cfg, ssid, o).networks[j]
                == cfg.networks[j]
            &&& after.ssid == ssid
            &&& after.password == o.password
            &&& after.dns == (if o.dns is Some {
                o.dns
            } else {
                before.dns
            })
            &&& after.eap == (if o.eap is Some {
                o.eap
            } else {
                before.eap
            })
            &&& after.identity == (if o.identity is Some {
                o.identity
            } else {
                before.identity
            })
            &&& after.ca_cert == (if o.ca_cert is Some {
                o.ca_cert
            } else {
                before.ca_cert
            })
            &&& o.hidden is Some ==> after.hidden == o.hidden->Some_0
            &&& o.hidden is None ==> after.hidden == before.hidden
        }),
{
    let a = config::ssids(cfg.networks);
    assert forall|k: int| 0 <= k < i implies a[k] != ssid by {
        assert(cfg.networks[k].ssid != ssid);
    }
    text::lemma_first_index_is(a, ssid, i);
}

/// A network that was not saved before is added after the others, with what is
/// given and nothing else.
pub proof fn a_new_network_is_what_is_given(
    cfg: ConfigModel,
    ssid: Seq<char>,
    o: AddModel,
)
    requires
        forall|k: int| 0 <= k < cfg.networks.len() ==> (#[trigger] cfg.networks[k]).ssid != ssid,
    ensures
        added(cfg, ssid, o).networks == cfg.networks.push(
            NetworkModel {
                ssid,
                password: o.password,
                dns: o.dns,
                eap: o.eap,
                identity: o.identity,
                ca_cert: o.ca_cert,
                hidden: o.hidden == Some(true),
            },
        ),
{
    let a = config::ssids(cfg.networks);
    text::lemma_first_index(a, ssid);
    let k = text::first_index(a, ssid) as int;
    if k < a.len() {
        assert(a[k] == cfg.networks[k].ssid);
    }
}

proof fn lemma_without_filter(list: Seq<Seq<char>>, s: Seq<char>)
    ensures
        without(list, s) == list.filter(|t: Seq<char>| t != s),
    decreases list.len(),
{
    reveal(Seq::filter);
    if list.len() > 0 {
        lemma_without_filter(list.drop_last(), s);
    } else {
        assert(list =~= Seq::empty());
    }
}

proof fn lemma_without_network_filter(nets: Seq<NetworkModel>, ssid: Seq<char>)
    ensures
        without_network(nets, ssid) == nets.filter(|n: NetworkModel| n.ssid != ssid),
    decreases nets.len(),
{
    reveal(Seq::filter);
    if nets.len() > 0 {
        lemma_without_network_filter(nets.drop_last(), ssid);
    } else {
        assert(nets =~= Seq::empty());
    }
}

/// A network is attached to the profile it is added to: it leaves its old place
/// in the list and takes the one that is asked for, or the last. The rest of the
/// profile is as it was, and so is a configuration without that profile.
pub proof fn an_added_network_takes_its_place(
    cfg: ConfigModel,
    ssid: Seq<char>,
    o: AddModel,
    name: Seq<char>,
)
    ensures
        o.to == Some(name) && cfg.profiles.contains_key(name) ==> ({
            let p = cfg.profiles[name];
            let q = added(cfg, ssid, o).profiles[name];
            let rest = p.networks.filter(|t: Seq<char>| t != ssid);
            &&& (ProfileModel { networks: p.networks, ..q }) == p
            &&& o.at is None ==> q.networks == rest.push(ssid)
            &&& o.at is Some && o.at->Some_0 >= rest.len() ==> q.networks == rest.push(ssid)
            &&& o.at is Some && o.at->Some_0 < rest.len() ==> q.networks == rest.take(
                o.at->Some_0 as int,
            ) + seq![ssid] + rest.skip(o.at->Some_0 as int)
        }),
        o.to is None ==> added(cfg, ssid, o).profiles == cfg.profiles,
        o.to == Some(name) && !cfg.profiles.contains_key(name) ==> added(cfg, ssid, o).profiles
            == cfg.profiles,
{
    if o.to == Some(name) && cfg.profiles.contains_key(name) {
        let p = cfg.profiles[name];
        let rest = p.networks.filter(|t: Seq<char>| t != ssid);
        lemma_without_filter(p.networks, ssid);
        let out = added(cfg, ssid, o).profiles[name].networks;
        assert(rest.insert(rest.len() as int, ssid) =~= rest.push(ssid));
        if let Some(n) = o.at {
            if n < rest.len() {
                assert(out =~= rest.take(n as int) + seq![ssid] + rest.skip(n as int));
            }
        }
    }
}

/// Forgetting a network takes it out of the saved ones and out of every list, and
/// changes neither the order of what is left nor anything else of a profile but a
/// bootstrap network of that name.
pub proof fn forgetting_keeps_the_others_in_order(
    cfg: ConfigModel,
    ssid: Seq<char>,
    name: Seq<char>,
)
    ensures
        forgotten(cfg, ssid).networks == cfg.networks.filter(|n: NetworkModel| n.ssid != ssid),
        forgotten(cfg, ssid).profiles.contains_key(name) == cfg.profiles.contains_key(name),
        cfg.profiles.contains_key(name) ==> ({
            let p = cfg.profiles[name];
            let q = forgotten(cfg, ssid).profiles[name];
            &&& q.networks == p.networks.filter(|t: Seq<char>| t != ssid)
            &&& q.bootstrap == (if p.bootstrap == Some(ssid) {
                None
            } else {
                p.bootstrap
            })
            &&& (ProfileModel { networks: p.networks, bootstrap: p.bootstrap, ..q }) == p
        }),
{
    lemma_without_network_filter(cfg.networks, ssid);
    if cfg.profiles.contains_key(name) {
        lemma_without_filter(cfg.profiles[name].networks, ssid);
    }
}

/// Pruning takes, in their order, the entries whose SSID is neither saved nor
/// listed in a profile nor its bootstrap network.
pub proof fn pruning_takes_what_nothing_names(
    cfg: ConfigModel,
    list: Seq<(Seq<char>, Seq<char>)>,
)
    ensures
        stale(cfg, list) == list.filter(
            |e: (Seq<char>, Seq<char>)|
                !(exists|k: int|
                    0 <= k < cfg.networks.len() && (#[trigger] cfg.networks[k]).ssid == e.1)
                    && !(exists|name: Seq<char>| #[trigger]
                    cfg.profiles.contains_key(name) && (cfg.profiles[name].networks.contains(e.1)
                        || cfg.profiles[name].bootstrap == Some(e.1))),
        ),
    decreases list.len(),
{
    reveal(Seq::filter);
    if list.len() > 0 {
        pruning_takes_what_nothing_names(cfg, list.drop_last());
        let ssid = list.last().1;
        let all = config::ssids(cfg.networks);
        if all.contains(ssid) {
            let k = all.index_of(ssid);
            assert(cfg.networks[k].ssid == ssid);
        } else if exists|k: int| 0 <= k < cfg.networks.len() && (#[trigger] cfg.networks[k]).ssid
            == ssid {
            let k = choose|k: int|
                0 <= k < cfg.networks.len() && (#[trigger] cfg.networks[k]).ssid == ssid;
            assert(all[k] == ssid);
        }
        assert((exists|name: Seq<char>| #[trigger]
            cfg.profiles.contains_key(name) && named_in(cfg.profiles[name], ssid)) == (exists|
            name: Seq<char>,
        | #[trigger]
            cfg.profiles.contains_key(name) && (cfg.profiles[name].networks.contains(ssid)
                || cfg.profiles[name].bootstrap == Some(ssid))));
    } else {
        assert(list =~= Seq::empty());
    }
}

/// The entries of a list are chosen by their numbers, which start at one. A number
/// that is not among them is refused, and so is an entry without a name.
pub proof fn entries_are_chosen_by_number(entries: Seq<ScanModel>, n: nat)
    ensures
        ({
            let c = chosen(entries, text::decimal(n));
            &&& 1 <= n <= entries.len() && entries[n - 1].ssid.len() > 0 ==> c == Ok::<
                Seq<char>,
                Seq<char>,
            >(entries[n - 1].ssid)
            &&& 1 <= n <= entries.len() && entries[n - 1].ssid.len() == 0 ==> c is Err
            &&& n == 0 || n > entries.len() ==> c is Err
        }),
        1 <= n <= entries.len() ==> selection(text::decimal(n), entries.len()) == Some(
            (n - 1) as nat,
        ),
        n == 0 || n > entries.len() ==> selection(text::decimal(n), entries.len()) is None,
{
    let s = text::decimal(n);
    text::decimal_reads_back(n);
    text::numbers_are_made_of_digits(s, entries.len(), 0);
    assert(s[0] != '+');
}

/// What is not a number chooses nothing.
pub proof fn only_numbers_choose(entries: Seq<ScanModel>, typed: Seq<char>, k: int)
    requires
        typed.len() == 0 || (0 <= k < typed.len() && !('0' <= typed[k] <= '9') && !(k == 0
            && typed[0] == '+')),
    ensures
        selection(typed, entries.len()) is None,
        chosen(entries, typed) is Err,
{
    text::numbers_are_made_of_digits(typed, entries.len(), k);
}

/// Picking a network that is saved changes nothing of it but its password, which
/// goes; one that is not saved is added after the others. The profile it is picked
/// for lists it, once and after what it listed before.
pub proof fn picking_adds_what_is_missing(
    cfg: ConfigModel,
    ssid: Seq<char>,
    to: Option<Seq<char>>,
    i: int,
    name: Seq<char>,
)
    requires
        0 <= i < cfg.networks.len(),
    ensures
        ({
            let out = picked(cfg, ssid, to);
            let n = cfg.networks[i];
            let first = n.ssid == ssid && forall|j: int|
                0 <= j < i ==> (#[trigger] cfg.networks[j]).ssid != ssid;
            let saved = exists|j: int|
                0 <= j < cfg.networks.len() && (#[trigger] cfg.networks[j]).ssid == ssid;
            &&& saved ==> out.networks.len() == cfg.networks.len()
            &&& out.networks[i] == (if first {
                NetworkModel { password: None, ..n }
            } else {
                n
            })
            &&& !saved ==> out.networks.len() == cfg.networks.len() + 1
                && out.networks.last().ssid == ssid && out.networks.last().password is None
            &&& out.settings == cfg.settings
            &&& out.profiles.contains_key(name) == cfg.profiles.contains_key(name)
            &&& cfg.profiles.contains_key(name) && to == Some(name)
                && !cfg.profiles[name].networks.contains(ssid) ==> out.profiles[name]
                == (ProfileModel {
                networks: cfg.profiles[name].networks.push(ssid),
                ..cfg.profiles[name]
            })
            &&& cfg.profiles.contains_key(name) && (to != Some(name)
                || cfg.profiles[name].networks.contains(ssid)) ==> out.profiles[name]
                == cfg.profiles[name]
        }),
{
    let nets = cfg.networks;
    let all = config::ssids(nets);
    text::lemma_first_index(all, ssid);
    let k = text::first_index(all, ssid) as int;
    let n = nets[i];
    let first = n.ssid == ssid && forall|j: int| 0 <= j < i ==> (#[trigger] nets[j]).ssid != ssid;
    assert(all[i] == n.ssid);
    if first {
        assert forall|j: int| 0 <= j < i implies all[j] != ssid by {
            assert(nets[j].ssid != ssid);
        }
        text::lemma_first_index_is(all, ssid, i);
    } else if k == i {
        assert forall|j: int| 0 <= j < i implies (#[trigger] nets[j]).ssid != ssid by {
            assert(all[j] != ssid);
        }
    }
    if all.contains(ssid) {
        let j = all.index_of(ssid);
        assert(nets[j].ssid == ssid);
    } else if exists|j: int| 0 <= j < nets.len() && (#[trigger] nets[j]).ssid == ssid {
        let j = choose|j: int| 0 <= j < nets.len() && (#[trigger] nets[j]).ssid == ssid;
        assert(all[j] == ssid);
    }
}

/// All is well only with an interface and the internet, and where Tailscale is
/// required only while it is healthy; where it is not required its state does not
/// matter.
pub proof fn one_thing_amiss_is_enough(s: StatusModel, t: Option<HealthModel>)
    ensures
        !s.internet ==> !all_well(s),
        s.iface is None ==> !all_well(s),
        s.tailscale_required && s.tailscale is None ==> !all_well(s),
        s.tailscale_required && s.tailscale is Some && !(s.tailscale->Some_0 is Healthy)
            ==> !all_well(s),
        !s.tailscale_required ==> all_well(s) == all_well(StatusModel { tailscale: t, ..s }),
        s.internet && s.iface is Some && s.tailscale == Some(HealthModel::Healthy) ==> all_well(s),
        s.internet && s.iface is Some && !s.tailscale_required ==> all_well(s),
{
}

/// The saved networks in sight are told in their order, each as often as it is
/// saved.
pub proof fn every_saved_network_in_sight_is_told(nets: Seq<NetworkModel>, near: Seq<Seq<char>>)
    ensures
        in_sight(nets, near) == nets.filter(|n: NetworkModel| near.contains(n.ssid)).map_values(
            |n: NetworkModel| n.ssid,
        ),
    decreases nets.len(),
{
    reveal(Seq::filter);
    if nets.len() > 0 {
        every_saved_network_in_sight_is_told(nets.drop_last(), near);
    } else {
        assert(in_sight(nets, near) =~= nets.map_values(|n: NetworkModel| n.ssid));
    }
}

/// A line loses the line feeds and carriage returns at its end and nothing else.
pub proof fn a_line_loses_only_its_end(s: Seq<char>)
    ensures
        ({
            let r = without_line_end(s);
            &&& r.len() <= s.len()
            &&& r == s.take(r.len() as int)
            &&& r.len() > 0 ==> r.last() != '\n' && r.last() != '\r'
            &&& forall|i: int| r.len() <= i < s.len() ==> s[i] == '\n' || s[i] == '\r'
        }),
    decreases s.len(),
{
    let r = without_line_end(s);
    if s.len() > 0 && (s.last() == '\n' || s.last() == '\r') {
        let t = s.drop_last();
        a_line_loses_only_its_end(t);
        assert(r =~= s.take(r.len() as int));
        assert forall|i: int| r.len() <= i < s.len() implies s[i] == '\n' || s[i] == '\r' by {
            if i < t.len() {
                assert(t[i] == s[i]);
            }
        }
    } else {
        assert(s.take(s.len() as int) =~= s);
    }
}

/// The lines of the profiles follow one another in the order of their names.
pub proof fn profiles_are_listed_one_by_one(
    cfg: ConfigModel,
    a: Seq<Seq<char>>,
    b: Seq<Seq<char>>,
    name: Seq<char>,
    current: Seq<char>,
)
    ensures
        all_profile_lines(cfg, a + b, current) == all_profile_lines(cfg, a, current)
            + all_profile_lines(cfg, b, current),
        all_profile_lines(cfg, seq![name], current) == profile_lines(cfg, name, current),
    decreases b.len(),
{
    let none = Seq::<Seq<char>>::empty();
    assert(seq![name].drop_last() =~= none);
    assert(all_profile_lines(cfg, none, current) =~= none);
    assert(none + profile_lines(cfg, name, current) =~= profile_lines(cfg, name, current));
    assert(all_profile_lines(cfg, seq![name], current) == all_profile_lines(
        cfg,
        seq![name].drop_last(),
        current,
    ) + profile_lines(cfg, seq![name].last(), current));
    if b.len() > 0 {
        profiles_are_listed_one_by_one(cfg, a, b.drop_last(), name, current);
        assert((a + b).drop_last() =~= a + b.drop_last());
        assert((a + b).last() == b.last());
        assert(all_profile_lines(cfg, a + b, current) =~= all_profile_lines(cfg, a, current)
            + all_profile_lines(cfg, b, current));
    } else {
        assert(a + b =~= a);
        assert(all_profile_lines(cfg, a, current) + all_profile_lines(cfg, b, current)
            =~= all_profile_lines(cfg, a, current));
    }
}

/// The model of what is given for a network tells each field as it is.
pub proof fn what_is_given_is_told_field_by_field(o: AddOpts)
    ensures
        o@.password == text::opt_view(o.password),
        o@.hidden == o.hidden,
        o@.dns == text::opt_view(o.dns),
        o@.eap == text::opt_view(o.eap),
        o@.identity == text::opt_view(o.identity),
        o@.ca_cert == text::opt_view(o.ca_cert),
        o@.to == text::opt_view(o.to),
        o@.at == o.at,
{
}

/// The editor is what is named, word by word; nano where nothing is.
pub proof fn an_editor_is_always_there(e: Seq<char>)
    ensures
        editor_command(None) == seq!["nano"@],
        text::words(e).len() > 0 ==> editor_command(Some(e)) == text::words(e),
        text::words(e).len() == 0 ==> editor_command(Some(e)) == seq!["nano"@],
{
    reveal_strlit("nano");
    let w = "nano"@;
    assert(forall|i: int| 0 <= i < w.len() ==> !text::space(#[trigger] w[i]));
    lemma_one_word(w);
}

proof fn lemma_one_word(w: Seq<char>)
    requires
        w.len() > 0,
        forall|i: int| 0 <= i < w.len() ==> !text::space(#[trigger] w[i]),
    ensures
        text::words(w) == seq![w],
{
    text::white_space_is_white(' ');
    text::words_stand_between_spaces(w, ' ', Seq::empty());
}

/// A status as an object holds each value under its name; what is not known is
/// null.
pub proof fn a_status_object_holds_the_status(profile: Seq<char>, s: StatusModel)
    ensures
        ({
            let known = |o: Option<Seq<char>>|
                if o is Some {
                    JsonModel::Text(o->Some_0)
                } else {
                    JsonModel::Null
                };
            status_object(profile, s) == seq![
                ("profile"@, JsonModel::Text(profile)),
                ("iface"@, known(s.iface)),
                ("ssid"@, known(s.ssid)),
                ("ip"@, known(s.ip)),
                ("internet"@, JsonModel::Bool(s.internet)),
                ("portal"@, JsonModel::Bool(s.portal)),
                ("tailscale_required"@, JsonModel::Bool(s.tailscale_required)),
                (
                    "tailscale"@,
                    if s.tailscale is Some {
                        JsonModel::Text(tailscale::state_name(s.tailscale->Some_0))
                    } else {
                        JsonModel::Null
                    },
                ),
                ("exit_node"@, JsonModel::Text(s.exit_node)),
                ("healthy"@, JsonModel::Bool(all_well(s))),
            ]
        }),
{
}

/// A password is shown only where that is asked for, and then as it is; whether
/// there is one is always shown.
pub proof fn a_password_is_shown_only_on_demand(n: NetworkModel, pw: Seq<char>, other: Seq<char>)
    ensures
        n.password == Some(pw) ==> password_shown(n, true) == pw,
        n.password == Some(pw) ==> password_shown(n, false) == password_shown(
            NetworkModel { password: Some(other), ..n },
            false,
        ),
        n.password is None ==> password_shown(n, true) == password_shown(n, false),
{
}

/// The active profile, and no other, is marked with a star.
pub proof fn the_active_profile_is_marked(name: Seq<char>, current: Seq<char>)
    ensures
        name == current ==> profile_entry(name, current) == "* "@ + name,
        name != current ==> profile_entry(name, current) == "  "@ + name,
{
    reveal_strlit("*");
    reveal_strlit(" ");
    reveal_strlit("* ");
    reveal_strlit("  ");
    assert("*"@ + " "@ =~= "* "@);
    assert(" "@ + " "@ =~= "  "@);
}

/// The entries of a scan are numbered from one, in their order.
pub proof fn a_scan_is_numbered_from_one(entries: Seq<ScanModel>, i: int)
    requires
        0 <= i < entries.len(),
    ensures
        scan_lines(entries).len() == entries.len(),
        scan_lines(entries)[i] == scan_line((i + 1) as nat, entries[i]),
        i >= 9 ==> text::begins_with(scan_lines(entries)[i], text::decimal((i + 1) as nat) + ". "@),
        i < 9 ==> text::begins_with(
            scan_lines(entries)[i],
            " "@ + text::decimal((i + 1) as nat) + ". "@,
        ),
{
    let n = (i + 1) as nat;
    let head = right_aligned(n) + ". "@;
    let line = scan_line(n, entries[i]);
    assert(line.take(head.len() as int) =~= head);
}

/// A profile is listed with a star where it is active, its bootstrap network and
/// its exit node where it has them, and its networks by priority.
pub proof fn a_profile_is_listed_in_full(
    cfg: ConfigModel,
    name: Seq<char>,
    current: Seq<char>,
)
    ensures
        ({
            let p = cfg.profiles[name];
            let lines = profile_lines(cfg, name, current);
            let b: int = if p.bootstrap is Some {
                1
            } else {
                0
            };
            let t: int = if p.tailscale {
                1
            } else {
                0
            };
            let node = if p.exit_node is Some {
                p.exit_node->Some_0
            } else {
                cfg.settings.exit_node
            };
            let rest = if p.include_all_known {
                p.networks.push("…all other known networks"@)
            } else {
                p.networks
            };
            &&& lines.len() == 2 + b + t
            &&& lines[0] == (if name == current {
                painted(C_GREEN@, "*"@)
            } else {
                " "@
            }) + " "@ + painted(C_BOLD@, name)
            &&& b == 1 ==> lines[1] == "    bootstrap   "@ + p.bootstrap->Some_0
            &&& t == 1 ==> lines[1 + b] == "    tailscale   required (exit: "@ + node + ")"@
            &&& lines[1 + b + t] == "    priority    "@ + text::joined(rest, " > "@)
        }),
{
}

/// A network is listed by its SSID, with its password or what stands for it, and
/// as hidden exactly where it is.
pub proof fn a_network_is_listed_as_it_is(n: NetworkModel, show: bool)
    ensures
        n.hidden ==> network_line(n, show) == "  "@ + painted(C_BOLD@, n.ssid) + "  "@ + painted(
            C_DIM@,
            password_shown(n, show) + "  (hidden)"@,
        ),
        !n.hidden ==> network_line(n, show) == "  "@ + painted(C_BOLD@, n.ssid) + "  "@ + painted(
            C_DIM@,
            password_shown(n, show),
        ),
{
    reveal_strlit("");
    assert(password_shown(n, show) + ""@ =~= password_shown(n, show));
}

/// The line for Tailscale is marked as good where it is healthy or not required,
/// and says so where it is optional.
pub proof fn optional_tailscale_is_no_fault(s: StatusModel, h: HealthModel)
    requires
        s.tailscale == Some(h),
    ensures
        h is Healthy || !s.tailscale_required ==> text::begins_with(
            tailscale_line(s),
            "  tailscale   "@ + dot(true) + " "@ + tailscale::description(h),
        ),
        !(h is Healthy) && s.tailscale_required ==> text::begins_with(
            tailscale_line(s),
            "  tailscale   "@ + dot(false) + " "@ + tailscale::description(h),
        ),
        dot(true) == painted(C_GREEN@, "●"@),
        dot(false) == painted(C_RED@, "●"@),
{
    let head = "  tailscale   "@ + dot(h is Healthy || !s.tailscale_required) + " "@
        + tailscale::description(h);
    let line = tailscale_line(s);
    assert(line.take(head.len() as int) =~= head);
}

/// How the lines of a status go: by what is there, and what is missing shown as
/// such.
pub proof fn a_status_is_shown_line_by_line(profile: Seq<char>, s: StatusModel)
    ensures
        ({
            let l = status_lines(profile, s);
            &&& l.len() == 8
            &&& l[1] == "  profile     "@ + painted(C_BOLD@, profile)
            &&& s.iface is Some ==> l[2] == "  adapter     "@ + s.iface->Some_0
            &&& s.iface is None ==> l[2] == "  adapter     "@ + painted(C_RED@, "none"@)
            &&& s.ssid is Some ==> l[3] == "  ssid        "@ + s.ssid->Some_0
            &&& s.ssid is None ==> l[3] == "  ssid        "@ + painted(C_DIM@, "—"@)
            &&& s.ip is Some ==> l[4] == "  ip          "@ + s.ip->Some_0
            &&& s.ip is None ==> l[4] == "  ip          "@ + painted(C_DIM@, "—"@)
            &&& s.internet ==> l[5] == "  internet    "@ + dot(true) + " "@ + "ok"@
            &&& !s.internet ==> l[5] == "  internet    "@ + dot(false) + " "@ + "down"@
            &&& l[6] == tailscale_line(s)
            &&& all_well(s) ==> l[7] == "  state       "@ + painted(C_GREEN@, "healthy"@)
            &&& !all_well(s) ==> l[7] == "  state       "@ + (painted(
                C_YELLOW@,
                "needs attention"@,
            ) + " — run `breadcrumbs init`"@)
        }),
{
}

/// A diagnosis tells which saved networks are near wherever there is an interface
/// to look with, and what Tailscale says wherever it is there.
pub proof fn a_diagnosis_tells_what_was_found(
    cfg: ConfigModel,
    profile: Seq<char>,
    s: StatusModel,
    f: Findings,
)
    ensures
        ({
            let l = diagnosis(cfg, profile, s, f);
            let near = in_sight(cfg.networks, text::views(f.visible@));
            let t: int = if s.tailscale is Some {
                1
            } else {
                0
            };
            let i: int = if s.iface is Some {
                1
            } else {
                0
            };
            &&& l.len() == 9 + t + i
            &&& f.network_manager ==> l[1] == "  network-manager "@ + "present (D-Bus)"@
            &&& !f.network_manager ==> l[1] == "  network-manager "@ + "MISSING"@
            &&& f.tailscale ==> l[2] == "  tailscale   "@ + "present"@
            &&& !f.tailscale ==> l[2] == "  tailscale   "@ + "absent"@
            &&& s.internet ==> l[6] == "  internet    "@ + "ok"@
            &&& !s.internet ==> l[6] == "  internet    "@ + "DOWN"@
            &&& t == 1 ==> l[7] == "  tailscale   "@ + tailscale::description(s.tailscale->Some_0)
                + " (exit "@ + s.exit_node + ")"@
            &&& i == 1 && near.len() > 0 ==> l[7 + t] == "  in range    "@ + text::joined(
                near,
                ", "@,
            )
            &&& i == 1 && near.len() == 0 ==> l[7 + t] == "  in range    "@
                + "none of your saved networks"@
        }),
{
}

/// The line for an outcome tells what it is: the network and, behind it, the note;
/// what is amiss and where; or what is missing.
pub proof fn an_outcome_is_told_in_a_line(
    profile: Seq<char>,
    ssid: Seq<char>,
    note: Seq<char>,
    h: HealthModel,
    other: Seq<char>,
)
    ensures
        ({
            let plain = outcome_line(profile, OutcomeModel::Connected { ssid, note: None });
            &&& plain == painted(C_GREEN@, "connected"@) + " "@ + painted(C_BOLD@, ssid) + " ("@
                + profile + ")"@
            &&& outcome_line(profile, OutcomeModel::Connected { ssid, note: Some(note) }) == plain
                + (" "@ + painted(C_YELLOW@, "— "@ + note))
            &&& outcome_line(
                profile,
                OutcomeModel::TailscaleError { ssid: Some(ssid), health: h },
            ) == painted(C_RED@, "tailscale error"@) + ": "@ + tailscale::description(h) + " "@
                + painted(C_DIM@, "(on "@ + ssid + ")"@)
            &&& outcome_line(profile, OutcomeModel::TailscaleError { ssid: None, health: h })
                == painted(C_RED@, "tailscale error"@) + ": "@ + tailscale::description(h) + " "@
                + painted(C_DIM@, "(on "@ + "—"@ + ")"@)
            &&& outcome_line(profile, OutcomeModel::NoNetworks) == painted(
                C_RED@,
                "no known networks in range"@,
            ) + " (profile "@ + profile + ")"@
            &&& outcome_line(profile, OutcomeModel::UnknownProfile(other)) == painted(
                C_RED@,
                "unknown profile"@,
            ) + ": "@ + other
            &&& outcome_line(profile, OutcomeModel::NoInterface) == painted(
                C_RED@,
                "no Wi-Fi adapter"@,
            ) + " — hardware issue"@
            &&& painted(other, ssid) == other + ssid + C_RESET@
        }),
{
    let none = Seq::<char>::empty();
    let plain = painted(C_GREEN@, "connected"@) + " "@ + painted(C_BOLD@, ssid) + " ("@ + profile
        + ")"@;
    assert(plain + none =~= plain);
}

/// A line of a scan tells the number, the SSID or that it is hidden, and signal
/// and security as they are.
pub proof fn a_scan_line_tells_the_entry(n: nat, e: ScanModel)
    ensures
        ({
            let name = if e.ssid.len() == 0 {
                "<hidden>"@
            } else {
                e.ssid
            };
            let number = if n < 10 {
                " "@ + text::decimal(n)
            } else {
                text::decimal(n)
            };
            scan_line(n, e) == number + ". "@ + painted(C_BOLD@, name) + " "@ + painted(
                C_DIM@,
                "sig "@ + e.signal + "  "@ + e.security,
            )
        }),
{
}

/// The settings are listed under their names.
pub proof fn settings_are_listed_by_name(cfg: ConfigModel)
    ensures
        ({
            let l = settings_lines(cfg);
            &&& l.len() == 5
            &&& l[1] == "  dns         "@ + cfg.settings.dns
            &&& l[2] == "  exit_node   "@ + cfg.settings.exit_node
            &&& l[3] == "  default     "@ + cfg.settings.default_profile
            &&& l[4] == "  watch every "@ + text::decimal(cfg.settings.watch_interval as nat)
                + "s"@
        }),
{
}

/// A listing holds the settings, every network at its place, and the profiles.
pub proof fn every_network_is_listed(
    cfg: ConfigModel,
    names: Seq<Seq<char>>,
    show: bool,
    current: Seq<char>,
    i: int,
)
    ensures
        ({
            let l = listing(cfg, names, show, current);
            let s = settings_lines(cfg);
            let p = all_profile_lines(cfg, names, current);
            &&& l.len() == s.len() + 2 + cfg.networks.len() + 2 + p.len()
            &&& l.take(s.len() as int) == s
            &&& 0 <= i < cfg.networks.len() ==> l[s.len() + 2 + i] == network_line(
                cfg.networks[i],
                show,
            )
            &&& l.skip(l.len() - p.len()) == p
        }),
{
    let l = listing(cfg, names, show, current);
    let s = settings_lines(cfg);
    let p = all_profile_lines(cfg, names, current);
    assert(l.take(s.len() as int) =~= s);
    assert(l.skip(l.len() - p.len()) =~= p);
}

} // verus!
