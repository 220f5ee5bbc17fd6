//! Settings, saved networks and location profiles, and the rules that turn what
//! the two configuration files hold into a configuration and back.

use vstd::prelude::*;
use vstd::string::*;

use crate::profiles::Profiles;
use crate::text;
use crate::util::home_dir;

verus! {

broadcast use crate::text::lemma_views_push;

// ---- Time of day ---------------------------------------------------------

/// The minutes since midnight that "HH:MM" (24 hours) stands for.
pub open spec fn minutes(s: Seq<char>) -> Option<nat> {
    let t = text::trimmed(s);
    let colon = text::index_of_char(t, ':') as int;
    if colon == t.len() {
        None
    } else {
        match (
            text::unsigned(t.take(colon), u32::MAX as nat),
            text::unsigned(t.skip(colon + 1), u32::MAX as nat),
        ) {
            (Some(h), Some(m)) => if h <= 23 && m <= 59 {
                Some(h * 60 + m)
            } else {
                None
            },
            _ => None,
        }
    }
}

/// Parse "HH:MM" (24h) into minutes since midnight; `None` if malformed.
pub fn hhmm_to_minutes(s: &str) -> (r: Option<u32>)
    ensures
        r is Some == minutes(s@) is Some,
        r matches Some(n) ==> Some(n as nat) == minutes(s@),
{
    let t = text::trim(s);
    let cs = text::chars_of(t.as_str());
    assert(cs@.skip(0) =~= cs@);
    let colon = text::find_char(&cs, 0, ':');
    if colon == cs.len() {
        return None;
    }
    let hours = text::string_of(&cs, 0, colon);
    let mins = text::string_of(&cs, colon + 1, cs.len());
    assert(hours@ =~= cs@.take(colon as int));
    assert(mins@ =~= cs@.skip(colon + 1));
    match (text::parse_u32(hours.as_str()), text::parse_u32(mins.as_str())) {
        (Some(h), Some(m)) => {
            if h > 23 || m > 59 {
                None
            } else {
                Some(h * 60 + m)
            }
        },
        _ => None,
    }
}

/// Whether the window from `from` (inclusive) to `to` (exclusive) contains
/// `now`; where `from` is not before `to` the window runs over midnight.
pub open spec fn in_window(from: int, to: int, now: int) -> bool {
    if from < to {
        from <= now < to
    } else {
        from <= now || now < to
    }
}

/// Does the window `[from, to)` (minutes since midnight) contain `now`?
/// `from >= to` means an overnight window (e.g. 22:00–07:00).
pub fn window_contains(from: u32, to: u32, now: u32) -> (r: bool)
    ensures
        r == in_window(from as int, to as int, now as int),
{
    if from < to {
        now >= from && now < to
    } else {
        now >= from || now < to
    }
}

/// Of two windows that meet at both ends exactly one contains a given time.
pub proof fn opposite_windows_split_the_day(from: int, to: int, now: int)
    requires
        from != to,
    ensures
        in_window(from, to, now) != in_window(to, from, now),
{
}

/// A time-of-day rule: the profile to use while its window is active.
#[derive(Debug, PartialEq, Eq)]
pub struct ScheduleEntry {
    /// Profile to switch to while the window is active.
    pub profile: String,
    /// "HH:MM", inclusive start.
    pub from: String,
    /// "HH:MM", exclusive end (`from >= to` means overnight).
    pub to: String,
}

#[verifier::ext_equal]
pub struct ScheduleModel {
    pub profile: Seq<char>,
    pub from: Seq<char>,
    pub to: Seq<char>,
}

impl View for ScheduleEntry {
    type V = ScheduleModel;

    open spec fn view(&self) -> ScheduleModel {
        ScheduleModel { profile: self.profile@, from: self.from@, to: self.to@ }
    }
}

impl Clone for ScheduleEntry {
    fn clone(&self) -> (r: ScheduleEntry)
        ensures
            r@ == self@,
    {
        ScheduleEntry {
            profile: self.profile.clone(),
            from: self.from.clone(),
            to: self.to.clone(),
        }
    }
}

/// Whether the rule's window is well formed and contains `now`.
pub open spec fn rule_applies(e: ScheduleModel, now: int) -> bool {
    match (minutes(e.from), minutes(e.to)) {
        (Some(f), Some(t)) => in_window(f as int, t as int, now),
        _ => false,
    }
}

impl ScheduleEntry {
    /// Whether the window contains `now_minutes` (minutes since midnight).
    pub fn contains(&self, now_minutes: u32) -> (r: bool)
        ensures
            r == rule_applies(self@, now_minutes as int),
    {
        match (hhmm_to_minutes(self.from.as_str()), hhmm_to_minutes(self.to.as_str())) {
            (Some(f), Some(t)) => window_contains(f, t, now_minutes),
            _ => false,
        }
    }
}

/// The profile of the first rule that applies.
pub open spec fn scheduled(rules: Seq<ScheduleModel>, now: int) -> Option<Seq<char>>
    decreases rules.len(),
{
    if rules.len() == 0 {
        None
    } else if rule_applies(rules[0], now) {
        Some(rules[0].profile)
    } else {
        scheduled(rules.drop_first(), now)
    }
}

// ---- Settings ------------------------------------------------------------

/// The settings of the configuration.
#[derive(Debug)]
pub struct Settings {
    pub dns: String,
    /// Seconds to wait for a connect to reach the activated device state.
    pub connect_wait: u32,
    pub exit_node: String,
    pub default_profile: String,
    pub watch_interval: u64,
    pub connectivity_url: String,
    pub ping_host: String,
    /// Set the first time the configuration is saved. Core profiles are only
    /// filled in before that; once the user owns the file, a profile they
    /// deleted stays deleted.
    pub core_profiles_initialized: bool,
    /// Preferred Wi-Fi interface; otherwise the first Wi-Fi device wins.
    pub interface: Option<String>,
    /// Priority-ordered fallback exit nodes. Falls back to `exit_node` when
    /// empty.
    pub exit_nodes: Vec<String>,
    /// Time-of-day rules; the first that applies wins.
    pub schedule: Vec<ScheduleEntry>,
}

#[verifier::ext_equal]
pub struct SettingsModel {
    pub dns: Seq<char>,
    pub connect_wait: u32,
    pub exit_node: Seq<char>,
    pub default_profile: Seq<char>,
    pub watch_interval: u64,
    pub connectivity_url: Seq<char>,
    pub ping_host: Seq<char>,
    pub core_profiles_initialized: bool,
    pub interface: Option<Seq<char>>,
    pub exit_nodes: Seq<Seq<char>>,
    pub schedule: Seq<ScheduleModel>,
}

/// The models behind a list of rules.
pub open spec fn rules(v: Seq<ScheduleEntry>) -> Seq<ScheduleModel> {
    v.map_values(|e: ScheduleEntry| e@)
}

impl View for Settings {
    type V = SettingsModel;

    open spec fn view(&self) -> SettingsModel {
        SettingsModel {
            dns: self.dns@,
            connect_wait: self.connect_wait,
            exit_node: self.exit_node@,
            default_profile: self.default_profile@,
            watch_interval: self.watch_interval,
            connectivity_url: self.connectivity_url@,
            ping_host: self.ping_host@,
            core_profiles_initialized: self.core_profiles_initialized,
            interface: text::opt_view(self.interface),
            exit_nodes: text::views(self.exit_nodes@),
            schedule: rules(self.schedule@),
        }
    }
}

/// The settings of a configuration that sets none.
pub open spec fn default_settings() -> SettingsModel {
    SettingsModel {
        dns: "1.1.1.1"@,
        connect_wait: 8,
        exit_node: Seq::empty(),
        default_profile: "away"@,
        watch_interval: 12,
        connectivity_url: "http://connectivitycheck.gstatic.com/generate_204"@,
        ping_host: "1.1.1.1"@,
        core_profiles_initialized: false,
        interface: None,
        exit_nodes: Seq::empty(),
        schedule: Seq::empty(),
    }
}

impl Default for Settings {
    fn default() -> (r: Settings)
        ensures
            r@ == default_settings(),
    {
        let r = Settings {
            dns: "1.1.1.1".to_string(),
            connect_wait: 8,
            exit_node: String::new(),
            default_profile: "away".to_string(),
            watch_interval: 12,
            connectivity_url: "http://connectivitycheck.gstatic.com/generate_204".to_string(),
            ping_host: "1.1.1.1".to_string(),
            core_profiles_initialized: false,
            interface: None,
            exit_nodes: Vec::new(),
            schedule: Vec::new(),
        };
        assert(r@ =~= default_settings());
        r
    }
}

impl Clone for Settings {
    fn clone(&self) -> (r: Settings)
        ensures
            r@ == self@,
    {
        let mut schedule: Vec<ScheduleEntry> = Vec::new();
        let mut i: usize = 0;
        while i < self.schedule.len()
            invariant
                i <= self.schedule@.len(),
                schedule@.len() == i,
                forall|j: int| 0 <= j < i ==> (#[trigger] schedule@[j])@ == self.schedule@[j]@,
            decreases self.schedule@.len() - i,
        {
            schedule.push(self.schedule[i].clone());
            i += 1;
        }
        assert(rules(schedule@) =~= rules(self.schedule@));
        Settings {
            dns: self.dns.clone(),
            connect_wait: self.connect_wait,
            exit_node: self.exit_node.clone(),
            default_profile: self.default_profile.clone(),
            watch_interval: self.watch_interval,
            connectivity_url: self.connectivity_url.clone(),
            ping_host: self.ping_host.clone(),
            core_profiles_initialized: self.core_profiles_initialized,
            interface: text::copy_opt(&self.interface),
            exit_nodes: text::copy_list(&self.exit_nodes),
            schedule,
        }
    }
}

impl Settings {
    /// The profile a time-of-day schedule picks for `now_minutes` (minutes
    /// since midnight), if any — first matching rule wins.
    pub fn scheduled_profile(&self, now_minutes: u32) -> (r: Option<String>)
        ensures
            text::opt_view(r) == scheduled(self@.schedule, now_minutes as int),
    {
        let mut i: usize = 0;
        let ghost all = rules(self.schedule@);
        assert(all.skip(0) =~= all);
        while i < self.schedule.len()
            invariant
                i <= self.schedule@.len(),
                all == rules(self.schedule@),
                scheduled(all, now_minutes as int) == scheduled(
                    all.skip(i as int),
                    now_minutes as int,
                ),
            decreases self.schedule@.len() - i,
        {
            if self.schedule[i].contains(now_minutes) {
                return Some(self.schedule[i].profile.clone());
            }
            assert(all.skip(i as int).drop_first() =~= all.skip(i + 1));
            i += 1;
        }
        None
    }
}

// ---- Networks ------------------------------------------------------------

/// A saved network.
#[derive(Debug)]
pub struct NetworkDef {
    pub ssid: String,
    /// Only needed once: after the first successful connect NetworkManager owns
    /// the secret and this is cleared. `None` also stands for an open network;
    /// in both cases no secret is sent on connect.
    pub password: Option<String>,
    /// DNS override. `None` falls back to the settings; an empty string turns
    /// DNS pinning off for this network.
    pub dns: Option<String>,
    /// The EAP method of a WPA-Enterprise (802.1x) network, such as "peap".
    pub eap: Option<String>,
    /// The 802.1x identity.
    pub identity: Option<String>,
    /// Path to a CA certificate for 802.1x.
    pub ca_cert: Option<String>,
    pub hidden: bool,
}

#[verifier::ext_equal]
pub struct NetworkModel {
    pub ssid: Seq<char>,
    pub password: Option<Seq<char>>,
    pub dns: Option<Seq<char>>,
    pub eap: Option<Seq<char>>,
    pub identity: Option<Seq<char>>,
    pub ca_cert: Option<Seq<char>>,
    pub hidden: bool,
}

impl View for NetworkDef {
    type V = NetworkModel;

    open spec fn view(&self) -> NetworkModel {
        NetworkModel {
            ssid: self.ssid@,
            password: text::opt_view(self.password),
            dns: text::opt_view(self.dns),
            eap: text::opt_view(self.eap),
            identity: text::opt_view(self.identity),
            ca_cert: text::opt_view(self.ca_cert),
            hidden: self.hidden,
        }
    }
}

impl Clone for NetworkDef {
    fn clone(&self) -> (r: NetworkDef)
        ensures
            r@ == self@,
    {
        NetworkDef {
            ssid: self.ssid.clone(),
            password: text::copy_opt(&self.password),
            dns: text::copy_opt(&self.dns),
            eap: text::copy_opt(&self.eap),
            identity: text::copy_opt(&self.identity),
            ca_cert: text::copy_opt(&self.ca_cert),
            hidden: self.hidden,
        }
    }
}

/// The DNS to pin for a network, given the setting to fall back to.
pub open spec fn dns_for(n: NetworkModel, fallback: Seq<char>) -> Seq<char> {
    match n.dns {
        Some(dns) => dns,
        None => fallback,
    }
}

impl NetworkDef {
    /// The DNS to pin for this network: the per-network override if set,
    /// otherwise the global setting.
    pub fn effective_dns<'a>(&'a self, fallback: &'a str) -> (r: &'a str)
        ensures
            r@ == dns_for(self@, fallback@),
    {
        match &self.dns {
            Some(dns) => dns.as_str(),
            None => fallback,
        }
    }
}

/// The models behind a list of networks.
pub open spec fn network_models(v: Seq<NetworkDef>) -> Seq<NetworkModel> {
    v.map_values(|n: NetworkDef| n@)
}

/// The SSIDs of a list of networks.
pub open spec fn ssids(nets: Seq<NetworkModel>) -> Seq<Seq<char>> {
    nets.map_values(|n: NetworkModel| n.ssid)
}

/// The first network with this SSID.
pub open spec fn network_in(nets: Seq<NetworkModel>, ssid: Seq<char>) -> Option<NetworkModel> {
    let i = text::first_index(ssids(nets), ssid) as int;
    if i < nets.len() {
        Some(nets[i])
    } else {
        None
    }
}

/// The position of the first network with this SSID, or the number of networks.
pub fn find_network(nets: &Vec<NetworkDef>, ssid: &str) -> (r: usize)
    ensures
        r == text::first_index(ssids(network_models(nets@)), ssid@),
        r <= nets@.len(),
        r < nets@.len() <==> ssids(network_models(nets@)).contains(ssid@),
{
    let ghost all = ssids(network_models(nets@));
    let mut i: usize = 0;
    while i < nets.len() && !text::same(nets[i].ssid.as_str(), ssid)
        invariant
            i <= nets@.len(),
            all == ssids(network_models(nets@)),
            forall|j: int| 0 <= j < i ==> #[trigger] all[j] != ssid@,
        decreases nets@.len() - i,
    {
        assert(all[i as int] == nets@[i as int].ssid@);
        i += 1;
    }
    proof {
        assert(i < nets@.len() ==> all[i as int] == nets@[i as int].ssid@);
        text::lemma_first_index_is(all, ssid@, i as int);
        text::lemma_first_index(all, ssid@);
    }
    i
}

fn copy_networks(nets: &Vec<NetworkDef>) -> (r: Vec<NetworkDef>)
    ensures
        network_models(r@) == network_models(nets@),
{
    let mut out: Vec<NetworkDef> = Vec::new();
    let mut i: usize = 0;
    while i < nets.len()
        invariant
            i <= nets@.len(),
            out@.len() == i,
            forall|j: int| 0 <= j < i ==> (#[trigger] out@[j])@ == nets@[j]@,
        decreases nets@.len() - i,
    {
        out.push(nets[i].clone());
        i += 1;
    }
    assert(network_models(out@) =~= network_models(nets@));
    out
}

// ---- Profiles ------------------------------------------------------------

/// A location profile.
#[derive(Debug)]
pub struct Profile {
    /// SSID connected first to bootstrap connectivity (e.g. for Tailscale).
    pub bootstrap: Option<String>,
    /// Ordered priority list of SSIDs this profile should end up connected to.
    pub networks: Vec<String>,
    /// Require a healthy Tailscale + exit node before moving off the bootstrap.
    pub tailscale: bool,
    /// Per-profile exit node override.
    pub exit_node: Option<String>,
    /// After the explicit list, also try every other known network.
    pub include_all_known: bool,
    /// SSIDs whose presence in a scan indicates this location.
    pub detect_ssids: Vec<String>,
    /// On a successful connect, add the SSID to `detect_ssids`.
    pub learn: bool,
}

#[verifier::ext_equal]
pub struct ProfileModel {
    pub bootstrap: Option<Seq<char>>,
    pub networks: Seq<Seq<char>>,
    pub tailscale: bool,
    pub exit_node: Option<Seq<char>>,
    pub include_all_known: bool,
    pub detect_ssids: Seq<Seq<char>>,
    pub learn: bool,
}

impl View for Profile {
    type V = ProfileModel;

    open spec fn view(&self) -> ProfileModel {
        ProfileModel {
            bootstrap: text::opt_view(self.bootstrap),
            networks: text::views(self.networks@),
            tailscale: self.tailscale,
            exit_node: text::opt_view(self.exit_node),
            include_all_known: self.include_all_known,
            detect_ssids: text::views(self.detect_ssids@),
            learn: self.learn,
        }
    }
}

/// A profile with nothing set, which may or may not try every known network.
pub open spec fn bare_profile(include_all_known: bool) -> ProfileModel {
    ProfileModel {
        bootstrap: None,
        networks: Seq::empty(),
        tailscale: false,
        exit_node: None,
        include_all_known,
        detect_ssids: Seq::empty(),
        learn: false,
    }
}

impl Default for Profile {
    fn default() -> (r: Profile)
        ensures
            r@ == bare_profile(false),
    {
        let r = Profile {
            bootstrap: None,
            networks: Vec::new(),
            tailscale: false,
            exit_node: None,
            include_all_known: false,
            detect_ssids: Vec::new(),
            learn: false,
        };
        assert(r@ =~= bare_profile(false));
        r
    }
}

impl Clone for Profile {
    fn clone(&self) -> (r: Profile)
        ensures
            r@ == self@,
    {
        Profile {
            bootstrap: text::copy_opt(&self.bootstrap),
            networks: text::copy_list(&self.networks),
            tailscale: self.tailscale,
            exit_node: text::copy_opt(&self.exit_node),
            include_all_known: self.include_all_known,
            detect_ssids: text::copy_list(&self.detect_ssids),
            learn: self.learn,
        }
    }
}

// ---- The configuration ---------------------------------------------------

/// Settings, saved networks and profiles.
#[derive(Debug)]
pub struct Config {
    pub settings: Settings,
    /// Saved networks. They are kept in a file of their own; a configuration
    /// file may still carry some, which move to the other file on the next save.
    pub networks: Vec<NetworkDef>,
    pub profiles: Profiles,
}

#[verifier::ext_equal]
pub struct ConfigModel {
    pub settings: SettingsModel,
    pub networks: Seq<NetworkModel>,
    pub profiles: Map<Seq<char>, ProfileModel>,
}

impl View for Config {
    type V = ConfigModel;

    open spec fn view(&self) -> ConfigModel {
        ConfigModel {
            settings: self.settings@,
            networks: network_models(self.networks@),
            profiles: self.profiles@,
        }
    }
}

impl Clone for Config {
    fn clone(&self) -> (r: Config)
        ensures
            r@ == self@,
            r.wf() == self.wf(),
            r.profiles.spec_names() == self.profiles.spec_names(),
    {
        Config {
            settings: self.settings.clone(),
            networks: copy_networks(&self.networks),
            profiles: self.profiles.clone(),
        }
    }
}

/// What the two configuration files hold: `main` without networks, and the
/// networks.
#[derive(Debug)]
pub struct ConfigFiles {
    pub main: Config,
    pub networks: Vec<NetworkDef>,
}

/// The entries of a list without the space around them, and without those that
/// are blank.
pub open spec fn without_blanks(list: Seq<Seq<char>>) -> Seq<Seq<char>>
    decreases list.len(),
{
    if list.len() == 0 {
        Seq::empty()
    } else {
        let rest = without_blanks(list.drop_last());
        let last = text::trimmed(list.last());
        if last.len() == 0 {
            rest
        } else {
            rest.push(last)
        }
    }
}

fn drop_blanks(list: &Vec<String>) -> (r: Vec<String>)
    ensures
        text::views(r@) == without_blanks(text::views(list@)),
{
    let mut out: Vec<String> = Vec::new();
    let mut i: usize = 0;
    let ghost all = text::views(list@);
    assert(text::views(out@) =~= without_blanks(all.take(0)));
    while i < list.len()
        invariant
            i <= list@.len(),
            all == text::views(list@),
            text::views(out@) == without_blanks(all.take(i as int)),
        decreases list@.len() - i,
    {
        let t = text::trim(list[i].as_str());
        assert(all.take(i + 1).drop_last() =~= all.take(i as int));
        assert(all.take(i + 1).last() == list@[i as int]@);
        if t.unicode_len() != 0 {
            out.push(t);
        }
        i += 1;
    }
    assert(all.take(i as int) =~= all);
    out
}

/// The exit nodes of a profile, in priority order.
pub open spec fn exit_nodes(cfg: ConfigModel, profile: Seq<char>) -> Seq<Seq<char>> {
    if cfg.profiles.contains_key(profile) && cfg.profiles[profile].exit_node is Some {
        let node = cfg.profiles[profile].exit_node->Some_0;
        if text::trimmed(node).len() == 0 {
            Seq::empty()
        } else {
            seq![node]
        }
    } else if cfg.settings.exit_nodes.len() == 0 {
        without_blanks(seq![cfg.settings.exit_node])
    } else {
        without_blanks(cfg.settings.exit_nodes)
    }
}

/// The networks of the networks file, then those of `inline` whose SSID did not
/// occur before.
pub open spec fn merged(file: Seq<NetworkModel>, inline: Seq<NetworkModel>) -> Seq<NetworkModel>
    decreases inline.len(),
{
    if inline.len() == 0 {
        file
    } else {
        let m = merged(file, inline.drop_last());
        if ssids(m).contains(inline.last().ssid) {
            m
        } else {
            m.push(inline.last())
        }
    }
}

/// The profiles of a new installation: "home", "work" and "away", of which only
/// "work" requires Tailscale and only "away" tries every known network.
pub open spec fn core_profile_map() -> Map<Seq<char>, ProfileModel> {
    Map::new(
        |k: Seq<char>| k == "home"@ || k == "work"@ || k == "away"@,
        |k: Seq<char>|
            ProfileModel { tailscale: k == "work"@, ..bare_profile(k == "away"@) },
    )
}

/// The configuration of a new installation.
pub open spec fn initial_config() -> ConfigModel {
    ConfigModel {
        settings: default_settings(),
        networks: Seq::empty(),
        profiles: core_profile_map(),
    }
}

/// `cfg`, marked as owned by the user.
pub open spec fn owned(cfg: ConfigModel) -> ConfigModel {
    ConfigModel {
        settings: SettingsModel { core_profiles_initialized: true, ..cfg.settings },
        ..cfg
    }
}

/// `cfg` with the core profiles that it lacks, unless the user owns it.
pub open spec fn with_core_profiles(cfg: ConfigModel) -> ConfigModel {
    if cfg.settings.core_profiles_initialized {
        cfg
    } else {
        ConfigModel { profiles: core_profile_map().union_prefer_right(cfg.profiles), ..cfg }
    }
}

/// The shortest interval between two polls, in seconds.
pub const MIN_WATCH_INTERVAL: u64 = 4;

/// `cfg` with a watch interval of at least the minimum.
pub open spec fn with_least_interval(cfg: ConfigModel) -> ConfigModel {
    if cfg.settings.watch_interval < MIN_WATCH_INTERVAL {
        ConfigModel {
            settings: SettingsModel { watch_interval: MIN_WATCH_INTERVAL, ..cfg.settings },
            ..cfg
        }
    } else {
        cfg
    }
}

/// The configuration behind what the two files hold, where they exist.
pub open spec fn loaded(
    main: Option<ConfigModel>,
    networks: Option<Seq<NetworkModel>>,
) -> ConfigModel {
    match main {
        None => owned(initial_config()),
        Some(cfg) => {
            let nets = match networks {
                Some(file) => merged(file, cfg.networks),
                None => cfg.networks,
            };
            with_core_profiles(with_least_interval(ConfigModel { networks: nets, ..cfg }))
        },
    }
}

/// The starter networks of a new installation: none.
pub fn canonical_networks() -> (r: Vec<NetworkDef>)
    ensures
        network_models(r@) == Seq::<NetworkModel>::empty(),
{
    let r: Vec<NetworkDef> = Vec::new();
    assert(network_models(r@) =~= Seq::<NetworkModel>::empty());
    r
}

/// The starter profiles of a new installation, one for each common pattern of a
/// location: a home profile, a work profile that requires Tailscale, and an
/// "away" profile that tries every known network. All their lists are empty; the
/// user fills them.
pub fn core_profiles() -> (r: Profiles)
    ensures
        r.wf(),
        r@ == core_profile_map(),
        r@["home"@] == bare_profile(false),
        r@["work"@] == (ProfileModel { tailscale: true, ..bare_profile(false) }),
        r@["away"@] == bare_profile(true),
        r.spec_names().len() == 3,
{
    let mut p = Profiles::new();
    p.insert("home".to_string(), Profile::default());
    let mut work = Profile::default();
    work.tailscale = true;
    let mut away = Profile::default();
    away.include_all_known = true;
    proof {
        reveal_strlit("home");
        reveal_strlit("work");
        reveal_strlit("away");
        assert("home"@[0] == 'h' && "work"@[0] == 'w' && "away"@[0] == 'a');
        assert(work@ =~= ProfileModel { tailscale: true, ..bare_profile(false) });
        assert(away@ =~= bare_profile(true));
    }
    p.insert("work".to_string(), work);
    p.insert("away".to_string(), away);
    assert(p@ =~= core_profile_map());
    p
}

/// Adds the core profiles that are missing, until the user owns the
/// configuration: after that a profile that was deleted stays deleted.
pub fn ensure_core_profiles(cfg: &mut Config)
    requires
        old(cfg).wf(),
    ensures
        final(cfg).wf(),
        final(cfg)@ == with_core_profiles(old(cfg)@),
        old(cfg).settings.core_profiles_initialized ==> *final(cfg) == *old(cfg),
{
    if cfg.settings.core_profiles_initialized {
        return ;
    }
    let starters = core_profiles();
    let mut i: usize = 0;
    let ghost start = cfg.profiles@;
    let ghost names = starters.spec_names();
    proof {
        starters.names_are_the_keys_in_order();
    }
    while i < starters.len()
        invariant
            cfg.wf(),
            starters.wf(),
            i <= names.len(),
            names == starters.spec_names(),
            names.no_duplicates(),
            cfg.settings@ == old(cfg).settings@,
            cfg.networks@ == old(cfg).networks@,
            start == old(cfg).profiles@,
            forall|k: Seq<char>|
                #[trigger] cfg.profiles@.contains_key(k) <==> start.contains_key(k) || names.take(
                    i as int,
                ).contains(k),
            forall|k: Seq<char>| start.contains_key(k) ==> #[trigger] cfg.profiles@[k] == start[k],
            forall|k: Seq<char>|
                cfg.profiles@.contains_key(k) && !start.contains_key(k)
                    ==> #[trigger] cfg.profiles@[k] == starters@[k],
        decreases names.len() - i,
    {
        let (name, profile) = starters.at(i);
        proof {
            assert(names.take(i + 1) =~= names.take(i as int).push(names[i as int]));
            assert forall|k: Seq<char>| names.take(i + 1).contains(k) <==> names.take(
                i as int,
            ).contains(k) || k == names[i as int] by {
                if names.take(i as int).contains(k) {
                    let j = names.take(i as int).index_of(k);
                    assert(names.take(i + 1)[j] == k);
                }
                if k == names[i as int] {
                    assert(names.take(i + 1)[i as int] == k);
                }
            }
            assert(!names.take(i as int).contains(name@)) by {
                if names.take(i as int).contains(name@) {
                    let j = names.take(i as int).index_of(name@);
                    assert(names[j] == names[i as int]);
                }
            }
        }
        if !cfg.profiles.contains_key(name.as_str()) {
            cfg.profiles.insert(name.clone(), profile.clone());
        }
        i += 1;
    }
    proof {
        assert(names.take(i as int) =~= names);
        assert(cfg.profiles@ =~= core_profile_map().union_prefer_right(start));
    }
}

/// The configuration of a first run: no networks, the three core profiles.
pub fn build_initial_config() -> (r: Config)
    ensures
        r.wf(),
        r@ == initial_config(),
        r.profiles.spec_names().len() == 3,
{
    let r = Config {
        settings: Settings::default(),
        networks: canonical_networks(),
        profiles: core_profiles(),
    };
    assert(r@ =~= initial_config());
    r
}

fn merge_networks(file: Vec<NetworkDef>, inline: &Vec<NetworkDef>) -> (r: Vec<NetworkDef>)
    ensures
        network_models(r@) == merged(network_models(file@), network_models(inline@)),
{
    let mut out = file;
    let ghost fm = network_models(file@);
    let ghost im = network_models(inline@);
    let mut i: usize = 0;
    assert(im.take(0).len() == 0);
    while i < inline.len()
        invariant
            i <= inline@.len(),
            im == network_models(inline@),
            network_models(out@) == merged(fm, im.take(i as int)),
        decreases inline@.len() - i,
    {
        assert(im.take(i + 1).drop_last() =~= im.take(i as int));
        assert(im.take(i + 1).last() == inline@[i as int]@);
        if find_network(&out, inline[i].ssid.as_str()) == out.len() {
            let n = inline[i].clone();
            assert(network_models(out@.push(n)) =~= network_models(out@).push(n@));
            out.push(n);
        }
        i += 1;
    }
    assert(im.take(i as int) =~= im);
    out
}

impl Config {
    /// The profiles are in order.
    pub open spec fn wf(&self) -> bool {
        self.profiles.wf()
    }

    pub fn profile<'a>(&'a self, name: &str) -> (r: Option<&'a Profile>)
        requires
            self.wf(),
        ensures
            r is Some == self@.profiles.contains_key(name@),
            r matches Some(p) ==> p@ == self@.profiles[name@],
    {
        self.profiles.get(name)
    }

    pub fn network<'a>(&'a self, ssid: &str) -> (r: Option<&'a NetworkDef>)
        ensures
            r is Some == network_in(self@.networks, ssid@) is Some,
            r matches Some(n) ==> Some(n@) == network_in(self@.networks, ssid@),
    {
        let i = find_network(&self.networks, ssid);
        if i < self.networks.len() {
            Some(&self.networks[i])
        } else {
            None
        }
    }

    /// The effective exit-node list for a profile, in priority order:
    /// per-profile `exit_node`, else `settings.exit_nodes`, else
    /// `settings.exit_node`. Empty entries are filtered out.
    pub fn exit_nodes_for(&self, profile: &str) -> (r: Vec<String>)
        requires
            self.wf(),
        ensures
            text::views(r@) == exit_nodes(self@, profile@),
    {
        let mut list: Vec<String> = Vec::new();
        assert(text::views(list@) =~= Seq::<Seq<char>>::empty());
        match self.profiles.get(profile) {
            Some(p) => {
                match &p.exit_node {
                    Some(node) => {
                        if text::trim(node.as_str()).unicode_len() != 0 {
                            list.push(node.clone());
                            assert(text::views(list@) =~= seq![node@]);
                        }
                        return list;
                    },
                    None => {},
                }
            },
            None => {},
        }
        if self.settings.exit_nodes.len() == 0 {
            list.push(self.settings.exit_node.clone());
            assert(text::views(list@) =~= seq![self.settings.exit_node@]);
            drop_blanks(&list)
        } else {
            drop_blanks(&self.settings.exit_nodes)
        }
    }

    /// The configuration behind what the two files hold. Without a main file it
    /// is the initial one, which is then due to be saved. Networks that the main
    /// file still carries are kept; where the networks file has the same SSID,
    /// that one wins.
    pub fn load(main: Option<Config>, networks: Option<Vec<NetworkDef>>) -> (r: Config)
        requires
            main matches Some(cfg) ==> cfg.wf(),
        ensures
            r.wf(),
            r@ == loaded(
                match main {
                    Some(cfg) => Some(cfg@),
                    None => None,
                },
                match networks {
                    Some(nets) => Some(network_models(nets@)),
                    None => None,
                },
            ),
    {
        match main {
            None => {
                let mut cfg = build_initial_config();
                cfg.settings.core_profiles_initialized = true;
                cfg
            },
            Some(cfg) => {
                let mut cfg = cfg;
                match networks {
                    Some(file) => {
                        cfg.networks = merge_networks(file, &cfg.networks);
                    },
                    None => {},
                }
                if cfg.settings.watch_interval < MIN_WATCH_INTERVAL {
                    cfg.settings.watch_interval = MIN_WATCH_INTERVAL;
                }
                ensure_core_profiles(&mut cfg);
                cfg
            },
        }
    }

    /// What to write to the two files. The first save marks the configuration
    /// as owned by the user, so that deleted core profiles stay deleted.
    pub fn save(&mut self) -> (r: ConfigFiles)
        requires
            old(self).wf(),
        ensures
            final(self).wf(),
            final(self)@ == owned(old(self)@),
            final(self).profiles == old(self).profiles,
            r.main.wf(),
            r.main@ == (ConfigModel { networks: Seq::empty(), ..owned(old(self)@) }),
            r.main.profiles.spec_names() == old(self).profiles.spec_names(),
            network_models(r.networks@) == old(self)@.networks,
    {
        self.settings.core_profiles_initialized = true;
        let main = Config {
            settings: self.settings.clone(),
            networks: Vec::new(),
            profiles: self.profiles.clone(),
        };
        assert(network_models(main.networks@) =~= Seq::<NetworkModel>::empty());
        ConfigFiles { main, networks: copy_networks(&self.networks) }
    }
}

/// Loading what was saved gives the saved configuration back, now marked as
/// owned. (A watch interval below the minimum would be raised on the way.)
pub proof fn load_undoes_save(cfg: ConfigModel)
    requires
        cfg.settings.watch_interval >= MIN_WATCH_INTERVAL,
    ensures
        loaded(
            Some(ConfigModel { networks: Seq::empty(), ..owned(cfg) }),
            Some(cfg.networks),
        ) == owned(cfg),
{
}

/// Loading changes nothing in a configuration that was loaded and saved before,
/// whatever it was loaded from.
pub proof fn loading_again_changes_nothing(
    main: Option<ConfigModel>,
    networks: Option<Seq<NetworkModel>>,
)
    ensures
        ({
            let cfg = owned(loaded(main, networks));
            loaded(
                Some(ConfigModel { networks: Seq::empty(), ..cfg }),
                Some(cfg.networks),
            ) == cfg
        }),
{
    load_undoes_save(loaded(main, networks));
}

/// The watch interval of a configuration that was loaded is at least the minimum.
pub proof fn the_least_interval_holds(
    main: Option<ConfigModel>,
    networks: Option<Seq<NetworkModel>>,
)
    ensures
        loaded(main, networks).settings.watch_interval >= MIN_WATCH_INTERVAL,
{
}

/// A profile that is missing from a configuration the user owns stays missing
/// when it is loaded, and one that is there stays as it is.
pub proof fn owned_profiles_stay_as_they_are(
    cfg: ConfigModel,
    networks: Option<Seq<NetworkModel>>,
)
    ensures
        loaded(Some(owned(cfg)), networks).profiles == cfg.profiles,
{
}

proof fn lemma_merged_prefix(file: Seq<NetworkModel>, inline: Seq<NetworkModel>)
    ensures
        file.len() <= merged(file, inline).len(),
        merged(file, inline).take(file.len() as int) == file,
    decreases inline.len(),
{
    if inline.len() > 0 {
        lemma_merged_prefix(file, inline.drop_last());
        let m = merged(file, inline.drop_last());
        assert(m.push(inline.last()).take(file.len() as int) =~= m.take(file.len() as int));
    } else {
        assert(file.take(file.len() as int) =~= file);
    }
}

/// Merging forgets no network and adds none: an SSID leads to its network in
/// the networks file, and where that has none, to the one kept inline. The
/// networks of the file come first, as they are.
pub proof fn merge_prefers_the_file(
    file: Seq<NetworkModel>,
    inline: Seq<NetworkModel>,
    ssid: Seq<char>,
)
    ensures
        network_in(merged(file, inline), ssid) == (match network_in(file, ssid) {
            Some(n) => Some(n),
            None => network_in(inline, ssid),
        }),
        file.len() <= merged(file, inline).len(),
        merged(file, inline).take(file.len() as int) == file,
    decreases inline.len(),
{
    lemma_merged_prefix(file, inline);
    let m = merged(file, inline);
    text::lemma_first_index(ssids(file), ssid);
    text::lemma_first_index(ssids(inline), ssid);
    if inline.len() == 0 {
    } else {
        let before = inline.drop_last();
        let m0 = merged(file, before);
        merge_prefers_the_file(file, before, ssid);
        text::lemma_first_index(ssids(before), ssid);
        text::lemma_first_index(ssids(m0), ssid);
        let i = text::first_index(ssids(inline), ssid) as int;
        let j = text::first_index(ssids(before), ssid) as int;
        // Where the SSID occurs before the last inline network, nothing changes.
        if ssids(before).contains(ssid) {
            assert(ssids(inline)[j] == ssids(before)[j]);
            assert forall|k: int| 0 <= k < j implies ssids(inline)[k] != ssid by {
                assert(ssids(before)[k] != ssid);
            }
            text::lemma_first_index_is(ssids(inline), ssid, j);
        } else {
            assert forall|k: int| 0 <= k < before.len() implies ssids(inline)[k] != ssid by {
                assert(ssids(before)[k] == ssids(inline)[k]);
                assert(ssids(before).contains(ssids(before)[k]));
            }
            if inline.last().ssid == ssid {
                text::lemma_first_index_is(ssids(inline), ssid, inline.len() - 1);
            } else {
                text::lemma_first_index_is(ssids(inline), ssid, inline.len() as int);
            }
        }
        let k0 = text::first_index(ssids(m0), ssid) as int;
        if ssids(m0).contains(inline.last().ssid) {
            if inline.last().ssid == ssid {
                assert(k0 < m0.len());
            }
        } else {
            assert(ssids(m) =~= ssids(m0).push(inline.last().ssid));
            if ssids(m0).contains(ssid) {
                assert forall|k: int| 0 <= k < k0 implies ssids(m)[k] != ssid by {
                    assert(ssids(m0)[k] != ssid);
                }
                assert(ssids(m)[k0] == ssids(m0)[k0]);
                text::lemma_first_index_is(ssids(m), ssid, k0);
            } else {
                assert forall|k: int| 0 <= k < m0.len() implies ssids(m)[k] != ssid by {
                    assert(ssids(m0)[k] == ssids(m)[k]);
                    assert(ssids(m0).contains(ssids(m0)[k]));
                }
                if inline.last().ssid == ssid {
                    text::lemma_first_index_is(ssids(m), ssid, m0.len() as int);
                } else {
                    text::lemma_first_index_is(ssids(m), ssid, m.len() as int);
                }
            }
        }
    }
}

// ---- Paths ---------------------------------------------------------------

/// `leaf` below `base`.
pub open spec fn below(base: Seq<u8>, leaf: Seq<u8>) -> Seq<u8> {
    if base.len() == 0 {
        leaf
    } else if base.last() == 47u8 {
        base + leaf
    } else {
        base.push(47u8) + leaf
    }
}

fn join(base: &Vec<u8>, leaf: &str) -> (r: Vec<u8>)
    ensures
        r@ == below(base@, leaf.spec_bytes()),
{
    let mut out = base.clone();
    if base.len() > 0 && base[base.len() - 1] != 47 {
        out.push(47);
    }
    text::push_bytes(&mut out, leaf);
    assert(out@ =~= below(base@, leaf.spec_bytes()));
    out
}

/// Where the configuration files live: below `$XDG_CONFIG_HOME`, or below
/// `.config` in the home directory.
pub open spec fn config_dir_path(xdg: Option<Seq<u8>>, home: Option<Seq<u8>>) -> Seq<u8> {
    below(
        match xdg {
            Some(dir) => dir,
            None => below(crate::util::home_path(home), ".config".spec_bytes()),
        },
        "breadcrumbs".spec_bytes(),
    )
}

/// Where state and log live: below `$XDG_STATE_HOME`, or below `.local/state` in
/// the home directory.
pub open spec fn state_dir_path(xdg: Option<Seq<u8>>, home: Option<Seq<u8>>) -> Seq<u8> {
    below(
        match xdg {
            Some(dir) => dir,
            None => below(
                below(crate::util::home_path(home), ".local".spec_bytes()),
                "state".spec_bytes(),
            ),
        },
        "breadcrumbs".spec_bytes(),
    )
}

pub fn config_dir(xdg: &Option<Vec<u8>>, home: &Option<Vec<u8>>) -> (r: Vec<u8>)
    ensures
        r@ == config_dir_path(crate::util::opt_bytes(*xdg), crate::util::opt_bytes(*home)),
{
    match xdg {
        Some(dir) => join(dir, "breadcrumbs"),
        None => join(&join(&home_dir(home), ".config"), "breadcrumbs"),
    }
}

pub fn config_path(xdg: &Option<Vec<u8>>, home: &Option<Vec<u8>>) -> (r: Vec<u8>)
    ensures
        r@ == below(
            config_dir_path(crate::util::opt_bytes(*xdg), crate::util::opt_bytes(*home)),
            "breadcrumbs.toml".spec_bytes(),
        ),
{
    join(&config_dir(xdg, home), "breadcrumbs.toml")
}

/// Where saved networks live, apart from the main file. Not meant to be edited
/// by hand.
pub fn networks_path(xdg: &Option<Vec<u8>>, home: &Option<Vec<u8>>) -> (r: Vec<u8>)
    ensures
        r@ == below(
            config_dir_path(crate::util::opt_bytes(*xdg), crate::util::opt_bytes(*home)),
            "networks.toml".spec_bytes(),
        ),
{
    join(&config_dir(xdg, home), "networks.toml")
}

pub fn state_dir(xdg: &Option<Vec<u8>>, home: &Option<Vec<u8>>) -> (r: Vec<u8>)
    ensures
        r@ == state_dir_path(crate::util::opt_bytes(*xdg), crate::util::opt_bytes(*home)),
{
    match xdg {
        Some(dir) => join(dir, "breadcrumbs"),
        None => join(&join(&join(&home_dir(home), ".local"), "state"), "breadcrumbs"),
    }
}

pub fn state_path(xdg: &Option<Vec<u8>>, home: &Option<Vec<u8>>) -> (r: Vec<u8>)
    ensures
        r@ == below(
            state_dir_path(crate::util::opt_bytes(*xdg), crate::util::opt_bytes(*home)),
            "state.toml".spec_bytes(),
        ),
{
    join(&state_dir(xdg, home), "state.toml")
}

pub fn log_path(xdg: &Option<Vec<u8>>, home: &Option<Vec<u8>>) -> (r: Vec<u8>)
    ensures
        r@ == below(
            state_dir_path(crate::util::opt_bytes(*xdg), crate::util::opt_bytes(*home)),
            "breadcrumbs.log".spec_bytes(),
        ),
{
    join(&state_dir(xdg, home), "breadcrumbs.log")
}

/// Where the units of the user's services live: below `$XDG_CONFIG_HOME`, or
/// below `.config` in the home directory.
pub fn unit_dir(xdg: &Option<Vec<u8>>, home: &Option<Vec<u8>>) -> (r: Vec<u8>)
    ensures
        r@ == below(
            below(
                match crate::util::opt_bytes(*xdg) {
                    Some(dir) => dir,
                    None => below(
                        crate::util::home_path(crate::util::opt_bytes(*home)),
                        ".config".spec_bytes(),
                    ),
                },
                "systemd".spec_bytes(),
            ),
            "user".spec_bytes(),
        ),
{
    match xdg {
        Some(dir) => join(&join(dir, "systemd"), "user"),
        None => join(&join(&join(&home_dir(home), ".config"), "systemd"), "user"),
    }
}

// ---- What holds of every configuration -----------------------------------

/// The schedule wants the profile of the first rule that applies, wherever that
/// stands, and nothing where none does.
pub proof fn the_first_rule_that_applies_wins(rules: Seq<ScheduleModel>, now: int, i: int)
    requires
        0 <= i <= rules.len(),
        forall|j: int| 0 <= j < i ==> !rule_applies(#[trigger] rules[j], now),
        i < rules.len() ==> rule_applies(rules[i], now),
    ensures
        scheduled(rules, now) == (if i < rules.len() {
            Some(rules[i].profile)
        } else {
            None
        }),
    decreases i,
{
    if i > 0 {
        let rest = rules.drop_first();
        assert(!rule_applies(rules[0], now));
        assert forall|j: int| 0 <= j < i - 1 implies !rule_applies(#[trigger] rest[j], now) by {
            assert(rest[j] == rules[j + 1]);
        }
        if i < rules.len() {
            assert(rest[i - 1] == rules[i]);
        }
        the_first_rule_that_applies_wins(rest, now, i - 1);
    }
}

/// A rule applies from its start on, for as long as its end is away from its
/// start, over midnight or not; where the two are the same, all day. One that is
/// not well formed never applies.
pub proof fn a_rule_applies_from_its_start_to_its_end(e: ScheduleModel, now: int)
    requires
        0 <= now < 1440,
    ensures
        minutes(e.from) is None || minutes(e.to) is None ==> !rule_applies(e, now),
        minutes(e.from) is Some && minutes(e.to) is Some ==> ({
            let from = minutes(e.from)->Some_0 as int;
            let to = minutes(e.to)->Some_0 as int;
            rule_applies(e, now) <==> from == to || (now - from) % 1440 < (to - from) % 1440
        }),
{
}

/// The window of two times contains the times that are as far from its start as
/// they are before its end, on the clock's face.
pub proof fn a_window_lies_between_its_ends(from: int, to: int, now: int)
    requires
        0 <= from < 1440,
        0 <= to < 1440,
        0 <= now < 1440,
    ensures
        in_window(from, to, now) <==> from == to || (now - from) % 1440 < (to - from) % 1440,
{
}

/// Hours and minutes in digits are read as that time of day, and refused beyond
/// the hours of a day or the minutes of an hour.
pub proof fn a_time_of_day_is_read(h: Seq<char>, m: Seq<char>)
    requires
        text::all_digits(h),
        text::all_digits(m),
        text::number(h) <= u32::MAX,
        text::number(m) <= u32::MAX,
    ensures
        minutes(h + seq![':'] + m) == (if text::number(h) < 24 && text::number(m) < 60 {
            Some((text::number(h) * 60 + text::number(m)) as nat)
        } else {
            None
        }),
{
    let s = h + seq![':'] + m;
    let n = h.len() as int;
    assert(s[0] == h[0] && s.last() == m.last());
    text::white_space_is_white(h[0]);
    text::white_space_is_white(m.last());
    text::trimming_spares_bare_texts(s);
    text::lemma_index_of_char(s, ':');
    let i = text::index_of_char(s, ':') as int;
    assert(s[n] == ':');
    assert(i == n) by {
        if i < n {
            assert(s[i] == h[i]);
        }
    }
    assert(s.take(n) =~= h);
    assert(s.skip(n + 1) =~= m);
    text::numbers_are_made_of_digits(h, u32::MAX as nat, 0);
    text::numbers_are_made_of_digits(m, u32::MAX as nat, 0);
}

/// A time of day is less than a day. A text without a colon is none, nor is one
/// with anything before or behind its colon that is no number; white space
/// around it does not matter.
pub proof fn malformed_times_are_refused(s: Seq<char>)
    ensures
        minutes(s) matches Some(n) ==> n < 1440,
        !s.contains(':') ==> minutes(s) is None,
        minutes(s) is Some ==> exists|a: Seq<char>, b: Seq<char>|
            {
                &&& text::trimmed(s) == #[trigger] (a + seq![':'] + b)
                &&& text::unsigned(a, u32::MAX as nat) is Some
                &&& text::unsigned(b, u32::MAX as nat) is Some
            },
        minutes(text::trimmed(s)) == minutes(s),
{
    let t = text::trimmed(s);
    text::trimming_takes_space_only(s);
    text::trimming_spares_bare_texts(t);
    text::lemma_index_of_char(t, ':');
    let i = text::index_of_char(t, ':') as int;
    if minutes(s) is Some {
        assert(t[i] == ':');
        assert(t =~= t.take(i) + seq![':'] + t.skip(i + 1));
        let (x, y) = choose|x: int, y: int|
            {
                &&& 0 <= x <= y <= s.len()
                &&& t == #[trigger] s.subrange(x, y)
                &&& forall|k: int|
                    0 <= k < x || y <= k < s.len() ==> text::space(#[trigger] s[k])
            };
        assert(s[x + i] == ':');
    }
}

/// An SSID leads to the first network that has it, and to none where none has.
pub proof fn an_ssid_leads_to_its_first_network(nets: Seq<NetworkModel>, ssid: Seq<char>, i: int)
    requires
        0 <= i <= nets.len(),
        forall|j: int| 0 <= j < i ==> (#[trigger] nets[j]).ssid != ssid,
        i < nets.len() ==> nets[i].ssid == ssid,
    ensures
        network_in(nets, ssid) == (if i < nets.len() {
            Some(nets[i])
        } else {
            None
        }),
{
    assert forall|j: int| 0 <= j < i implies ssids(nets)[j] != ssid by {
        assert(nets[j].ssid != ssid);
    }
    text::lemma_first_index_is(ssids(nets), ssid, i);
}

/// A network's own DNS server counts where it has one, even an empty one; where
/// it has none, the general one does.
pub proof fn a_network_may_have_its_own_dns(n: NetworkModel, fallback: Seq<char>, own: Seq<char>)
    ensures
        n.dns == Some(own) ==> dns_for(n, fallback) == own,
        n.dns is None ==> dns_for(n, fallback) == fallback,
{
}

proof fn lemma_without_blanks(list: Seq<Seq<char>>)
    ensures
        without_blanks(list) == list.map_values(|s: Seq<char>| text::trimmed(s)).filter(
            |s: Seq<char>| s.len() > 0,
        ),
    decreases list.len(),
{
    reveal(Seq::filter);
    let all = list.map_values(|s: Seq<char>| text::trimmed(s));
    if list.len() > 0 {
        lemma_without_blanks(list.drop_last());
        assert(all.drop_last() =~= list.drop_last().map_values(|s: Seq<char>| text::trimmed(s)));
        assert(all.last() == text::trimmed(list.last()));
    } else {
        assert(all =~= Seq::<Seq<char>>::empty());
    }
}

/// A profile's own exit node is the only one, unless it is blank: then there is
/// none. Without one, the general list counts, trimmed and without the blanks,
/// in its order; where that list is empty, the general node does.
pub proof fn exit_nodes_go_by_priority(cfg: ConfigModel, profile: Seq<char>)
    ensures
        ({
            let nodes = exit_nodes(cfg, profile);
            let general = if cfg.settings.exit_nodes.len() > 0 {
                cfg.settings.exit_nodes
            } else {
                seq![cfg.settings.exit_node]
            };
            if cfg.profiles.contains_key(profile) && cfg.profiles[profile].exit_node is Some {
                let own = cfg.profiles[profile].exit_node->Some_0;
                if text::trimmed(own).len() > 0 {
                    nodes == seq![own]
                } else {
                    nodes.len() == 0
                }
            } else {
                nodes == general.map_values(|s: Seq<char>| text::trimmed(s)).filter(
                    |s: Seq<char>| s.len() > 0,
                )
            }
        }),
{
    lemma_without_blanks(cfg.settings.exit_nodes);
    lemma_without_blanks(seq![cfg.settings.exit_node]);
}

proof fn lemma_merged_holds(file: Seq<NetworkModel>, inline: Seq<NetworkModel>, k: int)
    requires
        0 <= k < inline.len(),
        forall|j: int| 0 <= j < file.len() ==> (#[trigger] file[j]).ssid != inline[k].ssid,
        forall|j: int| 0 <= j < k ==> (#[trigger] inline[j]).ssid != inline[k].ssid,
    ensures
        exists|x: int|
            file.len() <= x < merged(file, inline).len() && #[trigger] merged(file, inline)[x]
                == inline[k],
    decreases inline.len(),
{
    let before = inline.drop_last();
    let m = merged(file, before);
    lemma_merged_prefix(file, before);
    lemma_merged_comes_from(file, before);
    if k < before.len() {
        assert forall|j: int| 0 <= j < k implies (#[trigger] before[j]).ssid != before[k].ssid by {
            assert(before[j] == inline[j]);
        }
        lemma_merged_holds(file, before, k);
        let x = choose|x: int|
            file.len() <= x < merged(file, before).len() && #[trigger] merged(file, before)[x]
                == before[k];
        assert(merged(file, inline)[x] == inline[k]);
    } else {
        if ssids(m).contains(inline[k].ssid) {
            let i = ssids(m).index_of(inline[k].ssid);
            assert(m[i].ssid == inline[k].ssid);
            if i < file.len() {
                assert(m.take(file.len() as int)[i] == m[i]);
                assert(file[i].ssid != inline[k].ssid);
            } else {
                let j = choose|j: int| 0 <= j < before.len() && m[i] == #[trigger] before[j];
                assert(inline[j].ssid != inline[k].ssid);
            }
        }
        assert(merged(file, inline)[m.len() as int] == inline[k]);
    }
}

proof fn lemma_merged_comes_from(file: Seq<NetworkModel>, inline: Seq<NetworkModel>)
    ensures
        file.len() <= merged(file, inline).len(),
        forall|i: int|
            #![trigger merged(file, inline)[i]]
            file.len() <= i < merged(file, inline).len() ==> exists|j: int|
                0 <= j < inline.len() && merged(file, inline)[i] == #[trigger] inline[j],
    decreases inline.len(),
{
    if inline.len() > 0 {
        let before = inline.drop_last();
        lemma_merged_comes_from(file, before);
        let m = merged(file, inline);
        let m0 = merged(file, before);
        assert forall|i: int|
            #![trigger m[i]]
            file.len() <= i < m.len() implies exists|j: int|
            0 <= j < inline.len() && m[i] == #[trigger] inline[j] by {
            if i < m0.len() {
                assert(m[i] == m0[i]);
                let j = choose|j: int| 0 <= j < before.len() && m0[i] == #[trigger] before[j];
                assert(inline[j] == before[j]);
            } else {
                assert(inline[inline.len() - 1] == m[i]);
            }
        }
    }
}

/// Merging two lists keeps the first as it is and adds, behind it and in their
/// order, the networks of the second whose SSID did not occur before.
pub proof fn merging_adds_what_is_new_in_order(
    file: Seq<NetworkModel>,
    inline: Seq<NetworkModel>,
    k: int,
    l: int,
)
    requires
        0 <= k < l < inline.len(),
        forall|j: int| 0 <= j < file.len() ==> (#[trigger] file[j]).ssid != inline[k].ssid,
        forall|j: int| 0 <= j < k ==> (#[trigger] inline[j]).ssid != inline[k].ssid,
        forall|j: int| 0 <= j < file.len() ==> (#[trigger] file[j]).ssid != inline[l].ssid,
        forall|j: int| 0 <= j < l ==> (#[trigger] inline[j]).ssid != inline[l].ssid,
    ensures
        exists|x: int, y: int|
            file.len() <= x < y < merged(file, inline).len() && #[trigger] merged(file, inline)[x]
                == inline[k] && #[trigger] merged(file, inline)[y] == inline[l],
    decreases inline.len(),
{
    let before = inline.drop_last();
    let m0 = merged(file, before);
    let m = merged(file, inline);
    if l < before.len() {
        assert(before[k] == inline[k] && before[l] == inline[l]);
        assert forall|j: int| 0 <= j < l implies (#[trigger] before[j]).ssid != before[l].ssid by {
            assert(before[j] == inline[j]);
        }
        assert forall|j: int| 0 <= j < k implies (#[trigger] before[j]).ssid != before[k].ssid by {
            assert(before[j] == inline[j]);
        }
        merging_adds_what_is_new_in_order(file, before, k, l);
        let (x, y) = choose|x: int, y: int|
            file.len() <= x < y < m0.len() && #[trigger] m0[x] == before[k] && #[trigger] m0[y]
                == before[l];
        assert(m[x] == inline[k] && m[y] == inline[l]);
    } else {
        assert(before[k] == inline[k]);
        assert forall|j: int| 0 <= j < k implies (#[trigger] before[j]).ssid != before[k].ssid by {
            assert(before[j] == inline[j]);
        }
        lemma_merged_holds(file, before, k);
        let x = choose|x: int| file.len() <= x < m0.len() && #[trigger] m0[x] == before[k];
        lemma_merged_prefix(file, before);
        lemma_merged_comes_from(file, before);
        if ssids(m0).contains(inline[l].ssid) {
            let i = ssids(m0).index_of(inline[l].ssid);
            assert(m0[i].ssid == inline[l].ssid);
            if i < file.len() {
                assert(m0.take(file.len() as int)[i] == m0[i]);
                assert(file[i].ssid != inline[l].ssid);
            } else {
                let j = choose|j: int| 0 <= j < before.len() && m0[i] == #[trigger] before[j];
                assert(inline[j].ssid != inline[l].ssid);
            }
        }
        assert(m[x] == inline[k] && m[m0.len() as int] == inline[l]);
    }
}

/// Loading leaves the settings as the file has them, but for an interval that is
/// too short, and every profile of the file as it is. The three core profiles are
/// filled in where they are missing, until the user owns the file, and no other
/// ever is.
pub proof fn loading_keeps_what_the_file_says(
    cfg: ConfigModel,
    networks: Option<Seq<NetworkModel>>,
    name: Seq<char>,
)
    ensures
        ({
            let out = loaded(Some(cfg), networks);
            let core = name == "home"@ || name == "work"@ || name == "away"@;
            &&& out.settings == (SettingsModel {
                watch_interval: if cfg.settings.watch_interval < 4 {
                    4
                } else {
                    cfg.settings.watch_interval
                },
                ..cfg.settings
            })
            &&& networks is None ==> out.networks == cfg.networks
            &&& cfg.profiles.contains_key(name) ==> out.profiles.contains_key(name)
                && out.profiles[name] == cfg.profiles[name]
            &&& !cfg.profiles.contains_key(name) ==> (out.profiles.contains_key(name) <==> core
                && !cfg.settings.core_profiles_initialized)
        }),
{
}

/// The core profiles list nothing yet. Only the one for work requires Tailscale,
/// and only the one for being away tries every known network.
pub proof fn core_profiles_are_starting_points(name: Seq<char>)
    requires
        core_profile_map().contains_key(name),
    ensures
        ({
            let p = core_profile_map()[name];
            &&& p.networks.len() == 0 && p.detect_ssids.len() == 0
            &&& p.bootstrap is None && p.exit_node is None && !p.learn
            &&& p.tailscale <==> name == "work"@
            &&& p.include_all_known <==> name == "away"@
        }),
{
}

/// Without a file there are no networks, the core profiles, and the default
/// settings, all of it the user's from then on.
pub proof fn a_first_start_has_the_core_profiles(networks: Option<Seq<NetworkModel>>)
    ensures
        ({
            let cfg = loaded(None, networks);
            &&& cfg.networks.len() == 0
            &&& cfg.profiles == core_profile_map()
            &&& cfg.settings.core_profiles_initialized
            &&& cfg.settings.default_profile == "away"@
            &&& cfg.settings.dns == "1.1.1.1"@
            &&& cfg.settings.connect_wait == 8
            &&& cfg.settings.watch_interval == 12
            &&& cfg.settings.schedule.len() == 0
            &&& cfg.settings.exit_nodes.len() == 0
            &&& cfg.settings.interface is None
        }),
{
}

/// A save changes only the mark of ownership.
pub proof fn owning_changes_only_the_mark(cfg: ConfigModel)
    ensures
        owned(cfg).networks == cfg.networks,
        owned(cfg).profiles == cfg.profiles,
        owned(cfg).settings.core_profiles_initialized,
        (SettingsModel {
            core_profiles_initialized: cfg.settings.core_profiles_initialized,
            ..owned(cfg).settings
        }) == cfg.settings,
{
}

/// The model of a network tells each of its fields as it is.
pub proof fn a_network_is_told_field_by_field(n: NetworkDef)
    ensures
        n@.ssid == n.ssid@,
        n@.password == text::opt_view(n.password),
        n@.dns == text::opt_view(n.dns),
        n@.eap == text::opt_view(n.eap),
        n@.identity == text::opt_view(n.identity),
        n@.ca_cert == text::opt_view(n.ca_cert),
        n@.hidden == n.hidden,
{
}

/// The model of a profile tells each of its fields as it is.
pub proof fn a_profile_is_told_field_by_field(p: Profile)
    ensures
        p@.bootstrap == text::opt_view(p.bootstrap),
        p@.networks == text::views(p.networks@),
        p@.tailscale == p.tailscale,
        p@.exit_node == text::opt_view(p.exit_node),
        p@.include_all_known == p.include_all_known,
        p@.detect_ssids == text::views(p.detect_ssids@),
        p@.learn == p.learn,
{
}

/// The model of a configuration tells its settings, its rules and its networks
/// one for one.
pub proof fn a_configuration_is_told_field_by_field(c: Config, i: int)
    ensures
        c@.networks.len() == c.networks@.len(),
        0 <= i < c.networks@.len() ==> c@.networks[i] == c.networks@[i]@,
        c@.profiles == c.profiles@,
        c@.settings.dns == c.settings.dns@,
        c@.settings.connect_wait == c.settings.connect_wait,
        c@.settings.exit_node == c.settings.exit_node@,
        c@.settings.default_profile == c.settings.default_profile@,
        c@.settings.watch_interval == c.settings.watch_interval,
        c@.settings.connectivity_url == c.settings.connectivity_url@,
        c@.settings.ping_host == c.settings.ping_host@,
        c@.settings.core_profiles_initialized == c.settings.core_profiles_initialized,
        c@.settings.interface == text::opt_view(c.settings.interface),
        c@.settings.exit_nodes == text::views(c.settings.exit_nodes@),
        c@.settings.schedule.len() == c.settings.schedule@.len(),
        0 <= i < c.settings.schedule@.len() ==> ({
            let e = c.settings.schedule@[i];
            let m = c@.settings.schedule[i];
            m.profile == e.profile@ && m.from == e.from@ && m.to == e.to@
        }),
{
}

/// A path below another is that path, one slash and the name; a slash that is
/// there already is enough, and nothing stands below a path of nothing.
pub proof fn a_path_below_has_one_slash(base: Seq<u8>, leaf: Seq<u8>)
    ensures
        base.len() > 0 && base.last() != 47u8 ==> below(base, leaf) == base + seq![47u8] + leaf,
        below(base.push(47u8), leaf) == base + seq![47u8] + leaf,
        base.len() == 0 ==> below(base, leaf) == leaf,
{
    assert(base.push(47u8) =~= base + seq![47u8]);
}

/// The directories are those of the environment where it names them, and else
/// stand at their places below the home directory.
pub proof fn directories_have_their_places(
    dir: Seq<u8>,
    home: Option<Seq<u8>>,
    h: Seq<u8>,
)
    ensures
        config_dir_path(Some(dir), home) == below(dir, "breadcrumbs".spec_bytes()),
        state_dir_path(Some(dir), home) == below(dir, "breadcrumbs".spec_bytes()),
        config_dir_path(None, Some(h)) == below(
            below(h, ".config".spec_bytes()),
            "breadcrumbs".spec_bytes(),
        ),
        state_dir_path(None, Some(h)) == below(
            below(below(h, ".local".spec_bytes()), "state".spec_bytes()),
            "breadcrumbs".spec_bytes(),
        ),
        config_dir_path(None, None) == config_dir_path(None, Some("/root".spec_bytes())),
        state_dir_path(None, None) == state_dir_path(None, Some("/root".spec_bytes())),
{
}

/// What holds of a configuration that says nothing.
pub proof fn settings_have_their_defaults()
    ensures
        ({
            let s = default_settings();
            &&& s.dns == "1.1.1.1"@
            &&& s.ping_host == "1.1.1.1"@
            &&& s.connect_wait == 8
            &&& s.watch_interval == 12
            &&& s.default_profile == "away"@
            &&& s.connectivity_url == "http://connectivitycheck.gstatic.com/generate_204"@
            &&& s.exit_node.len() == 0
            &&& s.exit_nodes.len() == 0
            &&& s.schedule.len() == 0
            &&& s.interface is None
            &&& !s.core_profiles_initialized
        }),
{
}

/// An interval of less than four seconds is taken as four when it is loaded.
pub proof fn a_short_interval_is_lengthened(cfg: ConfigModel, networks: Option<Seq<NetworkModel>>)
    ensures
        ({
            let s = loaded(Some(cfg), networks).settings;
            &&& cfg.settings.watch_interval >= 4 ==> s.watch_interval == cfg.settings.watch_interval
            &&& cfg.settings.watch_interval < 4 ==> s.watch_interval == 4
        }),
{
}

} // verus!
