//! The watch loop: how health is told from a status, and what each tick of the
//! loop does about it.

use vstd::prelude::*;

use crate::backend::Backend;
use crate::bread_events;
use crate::bread_events::{BusEvent, EventModel, HealthChanged, HealthChangedModel};
use crate::config;
use crate::config::{Config, ConfigModel};
use crate::flow::{Outcome, OutcomeModel, Say, SayModel};
use crate::flow;
use crate::notify::Urgency;
use crate::status;
use crate::status::{Observation, ObservationModel, StatusModel};
use crate::tailscale;
use crate::tailscale::{HealthModel, TsHealth};
use crate::text;
use crate::util;
use crate::util::{Output, Runner};

verus! {

// ---- Health --------------------------------------------------------------

/// Coarse health classification the watch loop reacts to each tick.
#[derive(PartialEq, Eq, Clone, Copy, Debug, Structural)]
pub enum Health {
    Up,
    DownNoNet,
    /// Traffic is being intercepted — a captive/guest portal. Not something
    /// reconnecting fixes; the user must sign in.
    CaptivePortal,
    DownTailscaleManual,
    DownTailscaleOther,
    NoAdapter,
    /// The active profile isn't defined in the configuration.
    UnknownProfile,
}

/// The name of a health in events.
pub open spec fn health_name(h: Health) -> Seq<char> {
    match h {
        Health::Up => "Up"@,
        Health::DownNoNet => "DownNoNet"@,
        Health::CaptivePortal => "CaptivePortal"@,
        Health::DownTailscaleManual => "DownTailscaleManual"@,
        Health::DownTailscaleOther => "DownTailscaleOther"@,
        Health::NoAdapter => "NoAdapter"@,
        Health::UnknownProfile => "UnknownProfile"@,
    }
}

impl Health {
    /// The name used in events.
    pub fn as_str(&self) -> (r: &'static str)
        ensures
            r@ == health_name(*self),
    {
        match self {
            Health::Up => "Up",
            Health::DownNoNet => "DownNoNet",
            Health::CaptivePortal => "CaptivePortal",
            Health::DownTailscaleManual => "DownTailscaleManual",
            Health::DownTailscaleOther => "DownTailscaleOther",
            Health::NoAdapter => "NoAdapter",
            Health::UnknownProfile => "UnknownProfile",
        }
    }
}

/// Everything the watch loop needs to know about one health observation.
#[derive(Debug)]
pub struct Classification {
    pub health: Health,
    pub ssid: Option<String>,
    pub iface: Option<String>,
    pub ip: Option<String>,
    pub tailscale: Option<TsHealth>,
    pub exit_node: String,
}

#[verifier::ext_equal]
pub struct ClassModel {
    pub health: Health,
    pub ssid: Option<Seq<char>>,
    pub iface: Option<Seq<char>>,
    pub ip: Option<Seq<char>>,
    pub tailscale: Option<HealthModel>,
    pub exit_node: Seq<char>,
}

impl View for Classification {
    type V = ClassModel;

    open spec fn view(&self) -> ClassModel {
        ClassModel {
            health: self.health,
            ssid: text::opt_view(self.ssid),
            iface: text::opt_view(self.iface),
            ip: text::opt_view(self.ip),
            tailscale: status::opt_health(self.tailscale),
            exit_node: self.exit_node@,
        }
    }
}

/// A classification with nothing known but the health and the exit node.
pub open spec fn bare_class(health: Health, exit_node: Seq<char>) -> ClassModel {
    ClassModel { health, ssid: None, iface: None, ip: None, tailscale: None, exit_node }
}

/// Whether Tailscale in this state needs a person: nothing can be done about a
/// missing login, installation or exit node from here.
pub open spec fn needs_a_person(h: Option<HealthModel>) -> bool {
    match h {
        Some(HealthModel::NeedsLogin) => true,
        Some(HealthModel::NotInstalled) => true,
        Some(HealthModel::NoExitNode) => true,
        Some(_) => false,
        None => true,
    }
}

/// The health behind the status of a profile that exists.
pub open spec fn health_of(s: StatusModel) -> Health {
    if s.iface is None {
        Health::NoAdapter
    } else if !s.internet {
        if s.portal {
            Health::CaptivePortal
        } else {
            Health::DownNoNet
        }
    } else if !s.tailscale_required || s.tailscale == Some(HealthModel::Healthy) {
        Health::Up
    } else if needs_a_person(s.tailscale) {
        Health::DownTailscaleManual
    } else {
        Health::DownTailscaleOther
    }
}

/// The classification of a profile, by what was observed.
pub open spec fn class_of(cfg: ConfigModel, profile: Seq<char>, o: ObservationModel) -> ClassModel {
    let s = status::status_of(cfg, profile, o);
    if s.iface is None {
        bare_class(Health::NoAdapter, s.exit_node)
    } else {
        ClassModel {
            health: health_of(s),
            ssid: s.ssid,
            iface: s.iface,
            ip: s.ip,
            tailscale: s.tailscale,
            exit_node: s.exit_node,
        }
    }
}

/// The classification of a profile that exists, by what was observed.
pub fn classify_observed(cfg: &Config, profile: &str, o: Observation) -> (r: Classification)
    requires
        cfg.wf(),
    ensures
        r@ == class_of(cfg@, profile@, o@),
{
    let s = status::assemble(cfg, profile, o);
    if s.iface.is_none() {
        return Classification {
            health: Health::NoAdapter,
            ssid: None,
            iface: None,
            ip: None,
            tailscale: None,
            exit_node: s.exit_node,
        };
    }
    let health = if !s.internet {
        if s.portal {
            Health::CaptivePortal
        } else {
            Health::DownNoNet
        }
    } else if s.tailscale_required {
        match &s.tailscale {
            Some(TsHealth::Healthy) => Health::Up,
            Some(TsHealth::NeedsLogin) => Health::DownTailscaleManual,
            Some(TsHealth::NotInstalled) => Health::DownTailscaleManual,
            Some(TsHealth::NoExitNode) => Health::DownTailscaleManual,
            Some(_) => Health::DownTailscaleOther,
            None => Health::DownTailscaleManual,
        }
    } else {
        Health::Up
    };
    Classification {
        health,
        ssid: s.ssid,
        iface: s.iface,
        ip: s.ip,
        tailscale: s.tailscale,
        exit_node: s.exit_node,
    }
}

/// Classifies a profile. One that does not exist is told apart before anything
/// is observed; it would otherwise pass for one that does not require Tailscale.
pub fn classify<B: Backend>(b: &B, cfg: &Config, profile: &str) -> (r: Classification)
    requires
        cfg.wf(),
    ensures
        if cfg@.profiles.contains_key(profile@) {
            exists|o: ObservationModel| #[trigger]
                status::may_observe(b, cfg@, profile@, o) && r@ == class_of(cfg@, profile@, o)
        } else {
            r@ == bare_class(Health::UnknownProfile, Seq::empty())
        },
{
    if cfg.profile(profile).is_none() {
        return Classification {
            health: Health::UnknownProfile,
            ssid: None,
            iface: None,
            ip: None,
            tailscale: None,
            exit_node: String::new(),
        };
    }
    let o = status::observe(b, cfg, profile);
    assert(status::may_observe(b, cfg@, profile@, o@));
    classify_observed(cfg, profile, o)
}

// ---- Pacing --------------------------------------------------------------

/// Whether a debounced signal is allowed to fire, `elapsed` nanoseconds after it
/// last did. One that never fired may always.
pub fn debounce_ready(elapsed: Option<u128>, gap: u128) -> (r: bool)
    ensures
        r == (elapsed matches Some(t) ==> t > gap),
{
    match elapsed {
        Some(t) => t > gap,
        None => true,
    }
}

/// Whether the cooldown has passed, this many seconds after the last flow (if
/// one ran).
pub fn recovery_due(since: Option<u128>, cooldown_secs: u64) -> (r: bool)
    ensures
        r == (since matches Some(t) ==> t >= cooldown_secs),
{
    match since {
        Some(t) => t >= cooldown_secs as u128,
        None => true,
    }
}

/// A wake signal for the watch loop. `SetProfile` is an action, `LinkChurn` just
/// says "go look".
#[derive(Debug, PartialEq, Eq)]
pub enum Wake {
    LinkChurn,
    SetProfile(String),
}

pub enum WakeModel {
    LinkChurn,
    SetProfile(Seq<char>),
}

impl View for Wake {
    type V = WakeModel;

    open spec fn view(&self) -> WakeModel {
        match self {
            Wake::LinkChurn => WakeModel::LinkChurn,
            Wake::SetProfile(p) => WakeModel::SetProfile(p@),
        }
    }
}

/// The models behind a list of signals.
pub open spec fn wake_models(v: Seq<Wake>) -> Seq<WakeModel> {
    v.map_values(|w: Wake| w@)
}

/// The first action among some signals.
pub open spec fn first_action(wakes: Seq<WakeModel>) -> Option<Seq<char>>
    decreases wakes.len(),
{
    if wakes.len() == 0 {
        None
    } else {
        match wakes[0] {
            WakeModel::SetProfile(p) => Some(p),
            WakeModel::LinkChurn => first_action(wakes.drop_first()),
        }
    }
}

/// What a burst of signals comes to: the earliest action, or nothing to do but
/// to look.
pub fn wait_for_tick(wakes: &Vec<Wake>) -> (r: Option<Wake>)
    ensures
        match r {
            Some(w) => w@ matches WakeModel::SetProfile(p) && first_action(wake_models(wakes@))
                == Some(p),
            None => first_action(wake_models(wakes@)) is None,
        },
{
    let ghost all = wake_models(wakes@);
    let mut i: usize = 0;
    assert(all.skip(0) =~= all);
    while i < wakes.len()
        invariant
            i <= wakes@.len(),
            all == wake_models(wakes@),
            first_action(all) == first_action(all.skip(i as int)),
        decreases wakes@.len() - i,
    {
        assert(all.skip(i as int)[0] == wakes@[i as int]@);
        match &wakes[i] {
            Wake::SetProfile(p) => {
                return Some(Wake::SetProfile(p.clone()));
            },
            Wake::LinkChurn => {},
        }
        assert(all.skip(i as int).drop_first() =~= all.skip(i + 1));
        i += 1;
    }
    None
}

/// An action is dropped only for an earlier one.
pub proof fn the_earliest_action_is_kept(wakes: Seq<WakeModel>, i: int, p: Seq<char>)
    requires
        0 <= i < wakes.len(),
        wakes[i] == WakeModel::SetProfile(p),
        forall|j: int| 0 <= j < i ==> (#[trigger] wakes[j]) is LinkChurn,
    ensures
        first_action(wakes) == Some(p),
    decreases i,
{
    if i > 0 {
        let rest = wakes.drop_first();
        assert(wakes[0] is LinkChurn);
        assert forall|j: int| 0 <= j < i - 1 implies (#[trigger] rest[j]) is LinkChurn by {
            assert(rest[j] == wakes[j + 1]);
        }
        the_earliest_action_is_kept(rest, i - 1, p);
    }
}

/// Whether a line of the monitor, in lower case, speaks of a link that may be
/// lost.
pub open spec fn speaks_of_loss(line: Seq<char>) -> bool {
    ||| text::occurs_in("disconnect"@, line)
    ||| text::occurs_in("unavailable"@, line)
    ||| text::occurs_in("failed"@, line)
    ||| text::occurs_in("deactivating"@, line)
    ||| text::occurs_in("connectivity"@, line)
}

/// Whether a line of the monitor, in lower case, speaks of a link that may be
/// lost.
pub fn tells_loss(line: &str) -> (r: bool)
    ensures
        r == speaks_of_loss(line@),
{
    text::contains(line, "disconnect") || text::contains(line, "unavailable") || text::contains(
        line,
        "failed",
    ) || text::contains(line, "deactivating") || text::contains(line, "connectivity")
}

/// Whether a line of the monitor is a reason to look at once.
pub fn is_interesting(line: &str) -> (r: bool)
    ensures
        r == speaks_of_loss(tailscale::lowercase(line@)),
{
    tells_loss(line.to_lowercase().as_str())
}

/// The profile that a schedule wants at a time of day, where the time could be
/// read.
pub open spec fn scheduled_at(cfg: ConfigModel, hhmm: Option<Seq<char>>) -> Option<Seq<char>> {
    match hhmm {
        Some(t) => match config::minutes(t) {
            Some(m) => config::scheduled(cfg.settings.schedule, m as int),
            None => None,
        },
        None => None,
    }
}

/// The profile that the schedule wants at a time of day.
pub fn scheduled_for(cfg: &Config, hhmm: &Option<String>) -> (r: Option<String>)
    ensures
        text::opt_view(r) == scheduled_at(cfg@, text::opt_view(*hhmm)),
{
    match hhmm {
        Some(t) => match config::hhmm_to_minutes(t.as_str()) {
            Some(m) => cfg.settings.scheduled_profile(m),
            None => None,
        },
        None => None,
    }
}

/// The profile a time-of-day schedule wants right now, if any. `None` when no
/// rule applies or the local time can't be read.
pub fn scheduled_profile_now<R: Runner>(runner: &R, cfg: &Config) -> (r: Option<String>)
    ensures
        exists|out: Output| #[trigger]
            util::ran(runner, "date"@, seq!["+%H:%M"@], None, 2, out) && text::opt_view(r)
                == scheduled_at(cfg@, util::clock_text(out)),
{
    let hhmm = util::local_hhmm(runner);
    scheduled_for(cfg, &hhmm)
}

// ---- The loop ------------------------------------------------------------

/// Seconds that must pass between two recovery flows.
pub const FLOW_COOLDOWN: u64 = 20;

/// Seconds beyond the planned wait that speak of a suspended machine.
pub const RESUME_SLACK: u64 = 60;

/// Seconds for which the schedule respects a profile that was set by hand.
pub const SCHEDULE_GRACE: u64 = 1800;

/// How many failures in a row make the wait longer.
pub const MAX_BACKOFF: u32 = 5;

/// Nanoseconds in a second.
pub const SECOND: u128 = 1_000_000_000;

/// What the watch loop remembers from one tick to the next. Times are
/// nanoseconds of a clock that never goes back.
#[verifier::ext_equal]
pub struct WatchModel {
    /// Seconds between two ticks while all is well.
    pub base: u64,
    pub health: Option<Health>,
    pub profile: Seq<char>,
    pub ssid: Option<Seq<char>>,
    pub tailscale: Option<Seq<char>>,
    /// Failures in a row.
    pub streak: u32,
    /// When the last flow ended, where the cooldown counts.
    pub flow_at: Option<u128>,
    /// The wait planned last, in seconds, and when it began.
    pub wait: u64,
    pub tick_at: u128,
    /// The profile that the loop itself last switched to or saw.
    pub applied: Option<Seq<char>>,
    /// When a profile was last set by hand.
    pub manual_at: Option<u128>,
}

/// What a part of a tick says and publishes.
#[verifier::ext_equal]
pub struct EffectsModel {
    pub says: Seq<SayModel>,
    pub events: Seq<EventModel>,
}

/// What a part of a tick says and publishes.
#[derive(Debug)]
pub struct Effects {
    pub says: Vec<Say>,
    pub events: Vec<BusEvent>,
}

/// The models behind a list of events.
pub open spec fn event_models(v: Seq<BusEvent>) -> Seq<EventModel> {
    v.map_values(|e: BusEvent| e@)
}

impl View for Effects {
    type V = EffectsModel;

    open spec fn view(&self) -> EffectsModel {
        EffectsModel { says: flow::sayings(self.says@), events: event_models(self.events@) }
    }
}

/// Time from `t` to `now`.
pub open spec fn elapsed(now: u128, t: u128) -> nat {
    if now >= t {
        (now - t) as nat
    } else {
        0
    }
}

/// The state of the loop when it starts with this interval and profile.
pub open spec fn started(interval: u64, profile: Seq<char>, now: u128) -> WatchModel {
    let base = if interval < config::MIN_WATCH_INTERVAL {
        config::MIN_WATCH_INTERVAL
    } else {
        interval
    };
    WatchModel {
        base,
        health: None,
        profile,
        ssid: None,
        tailscale: None,
        streak: 0,
        flow_at: None,
        wait: base,
        tick_at: now,
        applied: Some(profile),
        manual_at: None,
    }
}

/// Much more time has passed than was planned: the machine was suspended.
pub open spec fn resumed(w: WatchModel, now: u128) -> bool {
    elapsed(now, w.tick_at) > (w.wait + RESUME_SLACK) * SECOND
}

/// The active profile is another than the loop left it: someone set it by hand.
pub open spec fn set_by_hand(w: WatchModel, profile: Seq<char>) -> bool {
    w.applied is Some && w.applied != Some(profile)
}

/// A tick begins with this profile active. After a suspension recovery need not
/// wait for the cooldown; a profile set by hand starts its grace.
pub open spec fn begun(w: WatchModel, profile: Seq<char>, now: u128) -> (WatchModel, EffectsModel) {
    (
        WatchModel {
            flow_at: if resumed(w, now) {
                None
            } else {
                w.flow_at
            },
            manual_at: if set_by_hand(w, profile) {
                Some(now)
            } else {
                w.manual_at
            },
            applied: Some(profile),
            ..w
        },
        EffectsModel {
            says: if resumed(w, now) {
                flow::note(
                    "watch: large gap since last tick (suspend/resume?) — forcing recovery check"@,
                )
            } else {
                Seq::empty()
            },
            events: Seq::empty(),
        },
    )
}

/// No profile was set by hand, or its grace is over.
pub open spec fn grace_over(w: WatchModel, now: u128) -> bool {
    w.manual_at matches Some(t) ==> elapsed(now, t) >= SCHEDULE_GRACE * SECOND
}

/// The profile that the schedule makes the loop switch to.
pub open spec fn switch_due(
    w: WatchModel,
    profile: Seq<char>,
    scheduled: Option<Seq<char>>,
    now: u128,
) -> Option<Seq<char>> {
    match scheduled {
        Some(s) => if s != profile && grace_over(w, now) {
            Some(s)
        } else {
            None
        },
        None => None,
    }
}

/// What is said where the schedule has to wait.
pub open spec fn held_back(
    w: WatchModel,
    profile: Seq<char>,
    scheduled: Option<Seq<char>>,
    now: u128,
) -> Seq<SayModel> {
    match scheduled {
        Some(s) => if s != profile && !grace_over(w, now) {
            flow::note(
                "watch: schedule would switch to "@ + s + ", but a manual set is still in grace"@,
            )
        } else {
            Seq::empty()
        },
        None => Seq::empty(),
    }
}

/// The loop has switched to `s` for the schedule.
pub open spec fn switched(w: WatchModel, s: Seq<char>) -> (WatchModel, EffectsModel) {
    (
        WatchModel { applied: Some(s), manual_at: None, ..w },
        EffectsModel {
            says: flow::note("watch: schedule applied profile "@ + s),
            events: Seq::empty(),
        },
    )
}

/// The loop sees which profile is active. Another one than last time is
/// announced, and everything is looked at afresh.
pub open spec fn profile_seen(w: WatchModel, profile: Seq<char>) -> (WatchModel, EffectsModel) {
    if w.profile == profile {
        (w, EffectsModel { says: Seq::empty(), events: Seq::empty() })
    } else {
        (
            WatchModel {
                profile,
                health: None,
                ssid: None,
                tailscale: None,
                flow_at: None,
                ..w
            },
            EffectsModel {
                says: flow::note("watch: profile changed "@ + w.profile + " -> "@ + profile)
                    + flow::shout(
                    false,
                    "breadcrumbs: profile changed"@,
                    w.profile + " -> "@ + profile,
                    Urgency::Low,
                ),
                events: seq![bread_events::profile_changed(w.profile, profile)],
            },
        )
    }
}

/// The Tailscale state of a classification, by name.
pub open spec fn tailscale_name(c: ClassModel) -> Option<Seq<char>> {
    match c.tailscale {
        Some(h) => Some(tailscale::state_name(h)),
        None => None,
    }
}

/// What is published of a classification: what differs from last time.
pub open spec fn changes(w: WatchModel, c: ClassModel) -> Seq<EventModel> {
    (if w.health != Some(c.health) {
        seq![
            bread_events::health_changed(
                HealthChangedModel {
                    profile: w.profile,
                    health: health_name(c.health),
                    ssid: c.ssid,
                    iface: c.iface,
                    ip: c.ip,
                    exit_node: c.exit_node,
                    tailscale: tailscale_name(c),
                },
            ),
        ]
    } else {
        Seq::empty()
    }) + (if w.ssid != c.ssid {
        seq![bread_events::network_changed(w.ssid, c.ssid, w.profile)]
    } else {
        Seq::empty()
    }) + (if w.tailscale != tailscale_name(c) {
        seq![bread_events::tailscale_changed(w.profile, tailscale_name(c), c.exit_node)]
    } else {
        Seq::empty()
    })
}

/// Enough time has passed since the last flow.
pub open spec fn recovery_allowed(w: WatchModel, now: u128) -> bool {
    w.flow_at matches Some(t) ==> elapsed(now, t) / (SECOND as nat) >= FLOW_COOLDOWN
}

/// What is said of a classification that differs from the last one.
pub open spec fn announcement(w: WatchModel, c: ClassModel) -> Seq<SayModel> {
    if w.health == Some(c.health) {
        Seq::empty()
    } else {
        match c.health {
            Health::Up => if w.health is Some {
                flow::shout(
                    false,
                    "breadcrumbs: back online"@,
                    (match c.ssid {
                        Some(s) => s,
                        None => "Wi-Fi"@,
                    }) + " ("@ + w.profile + ")"@,
                    Urgency::Low,
                )
            } else {
                Seq::empty()
            },
            Health::NoAdapter => flow::shout(
                false,
                "breadcrumbs: no Wi-Fi adapter"@,
                "Hardware issue — manual check needed."@,
                Urgency::Critical,
            ),
            Health::UnknownProfile => flow::shout(
                false,
                "breadcrumbs: unknown profile"@,
                "'"@ + w.profile + "' is not defined in breadcrumbs.toml"@,
                Urgency::Critical,
            ),
            Health::CaptivePortal => flow::shout(
                false,
                "breadcrumbs: captive portal detected"@,
                "Traffic is being intercepted — open a browser and sign in."@,
                Urgency::Normal,
            ),
            Health::DownTailscaleManual => flow::shout(
                false,
                "Tailscale Error"@,
                "Tailscale needs manual attention (login / install / exit node config). Other Wi-Fi automation paused until resolved."@,
                Urgency::Critical,
            ),
            Health::DownNoNet | Health::DownTailscaleOther => flow::shout(
                false,
                "breadcrumbs: connection lost"@,
                "Recovering ("@ + w.profile + ")…"@,
                Urgency::Normal,
            ),
        }
    }
}

/// States that a flow may mend.
pub open spec fn recoverable(h: Health) -> bool {
    h is DownTailscaleManual || h is DownNoNet || h is DownTailscaleOther
}

/// Whether the loop runs a flow about a classification.
pub open spec fn flow_due(w: WatchModel, c: ClassModel, now: u128) -> bool {
    recoverable(c.health) && recovery_allowed(w, now)
}

/// What the log says of a lost connection, before a flow or instead of one.
pub open spec fn recovery_note(w: WatchModel, c: ClassModel, now: u128) -> Seq<SayModel> {
    match c.health {
        Health::DownNoNet | Health::DownTailscaleOther => flow::note(
            if recovery_allowed(w, now) {
                "watch: down ("@ + health_name(c.health) + ") profile="@ + w.profile + " ssid="@
                    + text::quoted_option(c.ssid) + " — running flow"@
            } else {
                "watch: down ("@ + health_name(c.health) + ") — cooldown, skipping flow"@
            },
        ),
        _ => Seq::empty(),
    }
}

/// One failure more.
pub open spec fn failed_again(streak: u32) -> u32 {
    if streak == u32::MAX {
        u32::MAX
    } else {
        (streak + 1) as u32
    }
}

/// The failures in a row after a classification, before any flow.
pub open spec fn streak_after(w: WatchModel, c: ClassModel) -> u32 {
    match c.health {
        Health::Up | Health::CaptivePortal => 0,
        Health::NoAdapter | Health::UnknownProfile => failed_again(w.streak),
        _ => w.streak,
    }
}

/// The loop reacts to a classification of the active profile.
pub open spec fn reacted(w: WatchModel, c: ClassModel, now: u128) -> (WatchModel, EffectsModel) {
    (
        WatchModel {
            health: Some(c.health),
            ssid: c.ssid,
            tailscale: tailscale_name(c),
            streak: streak_after(w, c),
            ..w
        },
        EffectsModel {
            says: announcement(w, c) + recovery_note(w, c, now),
            events: changes(w, c),
        },
    )
}

/// A flow that the loop ran has ended.
pub open spec fn recovered(w: WatchModel, outcome: OutcomeModel, now: u128) -> (
    WatchModel,
    EffectsModel,
) {
    (
        WatchModel {
            flow_at: Some(now),
            streak: if outcome is Connected {
                0
            } else {
                failed_again(w.streak)
            },
            ..w
        },
        EffectsModel {
            says: if w.health == Some(Health::DownTailscaleManual) {
                Seq::empty()
            } else {
                flow::note("watch: recovery outcome = "@ + flow::outcome_text(outcome))
            },
            events: Seq::empty(),
        },
    )
}

/// Seconds until the next tick: more after failures in a row, up to a limit.
pub open spec fn next_wait(w: WatchModel) -> nat {
    w.base as nat * (1 + if w.streak < MAX_BACKOFF {
        w.streak as nat
    } else {
        MAX_BACKOFF as nat
    })
}

/// A tick ends, and the wait for the next one begins.
pub open spec fn ended(w: WatchModel, now: u128) -> WatchModel {
    WatchModel { wait: next_wait(w) as u64, tick_at: now, ..w }
}

/// The watch loop, between two things it waits for.
#[derive(Debug)]
pub struct Watch {
    base: u64,
    health: Option<Health>,
    profile: String,
    ssid: Option<String>,
    tailscale: Option<String>,
    streak: u32,
    flow_at: Option<u128>,
    wait: u64,
    tick_at: u128,
    applied: Option<String>,
    manual_at: Option<u128>,
}

impl View for Watch {
    type V = WatchModel;

    closed spec fn view(&self) -> WatchModel {
        WatchModel {
            base: self.base,
            health: self.health,
            profile: self.profile@,
            ssid: text::opt_view(self.ssid),
            tailscale: text::opt_view(self.tailscale),
            streak: self.streak,
            flow_at: self.flow_at,
            wait: self.wait,
            tick_at: self.tick_at,
            applied: text::opt_view(self.applied),
            manual_at: self.manual_at,
        }
    }
}

/// The longest interval for which no wait between two ticks is too long to
/// count.
pub const MAX_INTERVAL: u64 = 3_074_457_345_618_258_602;

fn time_since(now: u128, t: u128) -> (r: u128)
    ensures
        r == elapsed(now, t),
{
    if now >= t {
        now - t
    } else {
        0
    }
}

fn no_effects() -> (r: Effects)
    ensures
        r@ == (EffectsModel { says: Seq::empty(), events: Seq::empty() }),
{
    let r = Effects { says: Vec::new(), events: Vec::new() };
    assert(r@ =~= EffectsModel { says: Seq::empty(), events: Seq::empty() });
    r
}

fn push_event(events: &mut Vec<BusEvent>, e: BusEvent)
    ensures
        event_models(final(events)@) == event_models(old(events)@) + seq![e@],
{
    assert(event_models(events@.push(e)) =~= event_models(events@) + seq![e@]);
    events.push(e);
}

fn str_of(o: &Option<String>) -> (r: Option<&str>)
    ensures
        text::opt_str_view(r) == text::opt_view(*o),
{
    match o {
        Some(s) => Some(s.as_str()),
        None => None,
    }
}

fn same_option(a: &Option<String>, b: &Option<String>) -> (r: bool)
    ensures
        r == (text::opt_view(*a) == text::opt_view(*b)),
{
    match (a, b) {
        (Some(x), Some(y)) => text::same(x.as_str(), y.as_str()),
        (None, None) => true,
        _ => false,
    }
}

impl Watch {
    /// The waits between two ticks can be counted.
    pub closed spec fn wf(&self) -> bool {
        self.base <= MAX_INTERVAL && self.wait <= self.base * 6
    }

    /// The loop starts with this interval, in seconds, and this profile.
    pub fn new(interval: u64, profile: &str, now: u128) -> (r: Watch)
        requires
            interval <= MAX_INTERVAL,
        ensures
            r.wf(),
            r@ == started(interval, profile@, now),
    {
        let base = if interval < config::MIN_WATCH_INTERVAL {
            config::MIN_WATCH_INTERVAL
        } else {
            interval
        };
        Watch {
            base,
            health: None,
            profile: profile.to_string(),
            ssid: None,
            tailscale: None,
            streak: 0,
            flow_at: None,
            wait: base,
            tick_at: now,
            applied: Some(profile.to_string()),
            manual_at: None,
        }
    }

    /// What came before the first tick is over.
    pub fn ready(&mut self, now: u128)
        requires
            old(self).wf(),
        ensures
            final(self).wf(),
            final(self)@ == (WatchModel { tick_at: now, ..old(self)@ }),
    {
        self.tick_at = now;
    }

    /// A tick begins with this profile active.
    pub fn begin(&mut self, profile: &str, now: u128) -> (r: Effects)
        requires
            old(self).wf(),
        ensures
            final(self).wf(),
            (final(self)@, r@) == begun(old(self)@, profile@, now),
    {
        let mut out = no_effects();
        let planned: u128 = self.wait as u128 + RESUME_SLACK as u128;
        assert(planned * SECOND <= 0x1_0000_0000_0000_0044 * 1_000_000_000) by (nonlinear_arith)
            requires
                planned <= 0x1_0000_0000_0000_0044,
                SECOND == 1_000_000_000,
        ;
        if time_since(now, self.tick_at) > planned * SECOND {
            flow::say_log(
                &mut out.says,
                "watch: large gap since last tick (suspend/resume?) — forcing recovery check".to_string(),
            );
            self.flow_at = None;
        }
        match &self.applied {
            Some(a) => {
                if !text::same(a.as_str(), profile) {
                    self.manual_at = Some(now);
                }
            },
            None => {},
        }
        self.applied = Some(profile.to_string());
        assert(out@.says =~= begun(old(self)@, profile@, now).1.says);
        out
    }

    /// The profile that the schedule wants the loop to switch to now. Where it
    /// has to wait, that is said.
    pub fn schedule(&self, profile: &str, scheduled: &Option<String>, now: u128) -> (r: (
        Option<String>,
        Effects,
    ))
        requires
            self.wf(),
        ensures
            text::opt_view(r.0) == switch_due(
                self@,
                profile@,
                text::opt_view(*scheduled),
                now,
            ),
            r.1@ == (EffectsModel {
                says: held_back(self@, profile@, text::opt_view(*scheduled), now),
                events: Seq::empty(),
            }),
    {
        let mut out = no_effects();
        match scheduled {
            Some(s) => {
                if text::same(s.as_str(), profile) {
                    return (None, out);
                }
                let over = match self.manual_at {
                    Some(t) => time_since(now, t) >= SCHEDULE_GRACE as u128 * SECOND,
                    None => true,
                };
                if over {
                    return (Some(s.clone()), out);
                }
                flow::say_log(
                    &mut out.says,
                    "watch: schedule would switch to ".to_string().concat(s.as_str()).concat(
                        ", but a manual set is still in grace",
                    ),
                );
                assert(out@.says =~= held_back(self@, profile@, text::opt_view(*scheduled), now));
                (None, out)
            },
            None => (None, out),
        }
    }

    /// The switch that the schedule wanted has been made.
    pub fn switched(&mut self, profile: String) -> (r: Effects)
        requires
            old(self).wf(),
        ensures
            final(self).wf(),
            (final(self)@, r@) == switched(old(self)@, profile@),
    {
        let mut out = no_effects();
        flow::say_log(
            &mut out.says,
            "watch: schedule applied profile ".to_string().concat(profile.as_str()),
        );
        let ghost want = switched(self@, profile@);
        self.applied = Some(profile);
        self.manual_at = None;
        assert(out@.says =~= want.1.says);
        out
    }

    /// The loop sees which profile is active.
    pub fn see_profile(&mut self, profile: &str) -> (r: Effects)
        requires
            old(self).wf(),
        ensures
            final(self).wf(),
            (final(self)@, r@) == profile_seen(old(self)@, profile@),
    {
        let mut out = no_effects();
        if text::same(self.profile.as_str(), profile) {
            return out;
        }
        let ghost want = profile_seen(self@, profile@);
        let change = self.profile.as_str().to_string().concat(" -> ").concat(profile);
        let line = "watch: profile changed ".to_string().concat(self.profile.as_str()).concat(
            " -> ",
        ).concat(profile);
        flow::say_log(&mut out.says, line);
        flow::say_notify(
            &mut out.says,
            false,
            "breadcrumbs: profile changed",
            change,
            Urgency::Low,
        );
        push_event(
            &mut out.events,
            bread_events::emit_profile_changed(self.profile.as_str(), profile),
        );
        self.profile = profile.to_string();
        self.health = None;
        self.ssid = None;
        self.tailscale = None;
        self.flow_at = None;
        assert(out@.says =~= want.1.says);
        assert(out@ =~= want.1);
        out
    }

    fn may_recover(&self, now: u128) -> (r: bool)
        ensures
            r == recovery_allowed(self@, now),
    {
        let since = match self.flow_at {
            Some(t) => Some(time_since(now, t) / SECOND),
            None => None,
        };
        recovery_due(since, FLOW_COOLDOWN)
    }

    fn announce(&self, c: &Classification, says: &mut Vec<Say>)
        ensures
            flow::sayings(final(says)@) == flow::sayings(old(says)@) + announcement(self@, c@),
    {
        let before = self.health;
        let same = match before {
            Some(h) => h == c.health,
            None => false,
        };
        if same {
            assert(flow::sayings(says@) =~= flow::sayings(old(says)@) + Seq::<SayModel>::empty());
            return;
        }
        match c.health {
            Health::Up => {
                if before.is_some() {
                    let place = match &c.ssid {
                        Some(s) => s.clone(),
                        None => "Wi-Fi".to_string(),
                    };
                    flow::say_notify(
                        says,
                        false,
                        "breadcrumbs: back online",
                        place.concat(" (").concat(self.profile.as_str()).concat(")"),
                        Urgency::Low,
                    );
                } else {
                    assert(flow::sayings(says@) =~= flow::sayings(old(says)@) + Seq::<SayModel>::empty());
                }
            },
            Health::NoAdapter => {
                flow::say_notify(
                    says,
                    false,
                    "breadcrumbs: no Wi-Fi adapter",
                    "Hardware issue — manual check needed.".to_string(),
                    Urgency::Critical,
                );
            },
            Health::UnknownProfile => {
                flow::say_notify(
                    says,
                    false,
                    "breadcrumbs: unknown profile",
                    "'".to_string().concat(self.profile.as_str()).concat(
                        "' is not defined in breadcrumbs.toml",
                    ),
                    Urgency::Critical,
                );
            },
            Health::CaptivePortal => {
                flow::say_notify(
                    says,
                    false,
                    "breadcrumbs: captive portal detected",
                    "Traffic is being intercepted — open a browser and sign in.".to_string(),
                    Urgency::Normal,
                );
            },
            Health::DownTailscaleManual => {
                flow::say_notify(
                    says,
                    false,
                    "Tailscale Error",
                    "Tailscale needs manual attention (login / install / exit node config). Other Wi-Fi automation paused until resolved.".to_string(),
                    Urgency::Critical,
                );
            },
            Health::DownNoNet | Health::DownTailscaleOther => {
                flow::say_notify(
                    says,
                    false,
                    "breadcrumbs: connection lost",
                    "Recovering (".to_string().concat(self.profile.as_str()).concat(")…"),
                    Urgency::Normal,
                );
            },
        }
    }

    fn publish(&self, c: &Classification, name: &Option<String>, events: &mut Vec<BusEvent>)
        requires
            text::opt_view(*name) == tailscale_name(c@),
        ensures
            event_models(final(events)@) == event_models(old(events)@) + changes(self@, c@),
    {
        let same = match self.health {
            Some(h) => h == c.health,
            None => false,
        };
        if !same {
            push_event(
                events,
                bread_events::emit_health_changed(
                    HealthChanged {
                        profile: self.profile.as_str(),
                        health: c.health.as_str(),
                        ssid: str_of(&c.ssid),
                        iface: str_of(&c.iface),
                        ip: str_of(&c.ip),
                        exit_node: c.exit_node.as_str(),
                        tailscale: str_of(name),
                    },
                ),
            );
        }
        if !same_option(&self.ssid, &c.ssid) {
            push_event(
                events,
                bread_events::emit_network_changed(
                    str_of(&self.ssid),
                    str_of(&c.ssid),
                    self.profile.as_str(),
                ),
            );
        }
        if !same_option(&self.tailscale, name) {
            push_event(
                events,
                bread_events::emit_tailscale_changed(
                    self.profile.as_str(),
                    str_of(name),
                    c.exit_node.as_str(),
                ),
            );
        }
        assert(event_models(events@) =~= event_models(old(events)@) + changes(self@, c@));
    }

    /// Reacts to a classification of the active profile. The flag tells whether
    /// a flow is to be run now, quietly.
    pub fn react(&mut self, c: &Classification, now: u128) -> (r: (Effects, bool))
        requires
            old(self).wf(),
        ensures
            final(self).wf(),
            (final(self)@, r.0@) == reacted(old(self)@, c@, now),
            r.1 == flow_due(old(self)@, c@, now),
    {
        let ghost want = reacted(self@, c@, now);
        let mut out = no_effects();
        let name = match &c.tailscale {
            Some(h) => Some(h.state_str().to_string()),
            None => None,
        };
        self.publish(c, &name, &mut out.events);
        self.announce(c, &mut out.says);
        let allowed = self.may_recover(now);
        let run = match c.health {
            Health::DownNoNet | Health::DownTailscaleOther => {
                let head = "watch: down (".to_string().concat(c.health.as_str());
                let line = if allowed {
                    head.concat(") profile=").concat(self.profile.as_str()).concat(
                        " ssid=",
                    ).concat(text::quote_option(&c.ssid).as_str()).concat(" — running flow")
                } else {
                    head.concat(") — cooldown, skipping flow")
                };
                flow::say_log(&mut out.says, line);
                allowed
            },
            Health::DownTailscaleManual => allowed,
            _ => false,
        };
        match c.health {
            Health::Up | Health::CaptivePortal => {
                self.streak = 0;
            },
            Health::NoAdapter | Health::UnknownProfile => {
                self.count_failure();
            },
            _ => {},
        }
        self.health = Some(c.health);
        self.ssid = text::copy_opt(&c.ssid);
        self.tailscale = name;
        assert(out@.says =~= want.1.says);
        assert(out@ =~= want.1);
        (out, run)
    }

    fn count_failure(&mut self)
        ensures
            final(self)@ == (WatchModel { streak: failed_again(old(self)@.streak), ..old(self)@ }),
            final(self).wf() == old(self).wf(),
    {
        if self.streak < u32::MAX {
            self.streak = self.streak + 1;
        }
    }

    /// The flow that was due has ended.
    pub fn recovered(&mut self, outcome: &Outcome, now: u128) -> (r: Effects)
        requires
            old(self).wf(),
        ensures
            final(self).wf(),
            (final(self)@, r@) == recovered(old(self)@, outcome@, now),
    {
        let ghost want = recovered(self@, outcome@, now);
        let mut out = no_effects();
        let manual = match self.health {
            Some(h) => h == Health::DownTailscaleManual,
            None => false,
        };
        if !manual {
            flow::say_log(
                &mut out.says,
                "watch: recovery outcome = ".to_string().concat(
                    flow::show_outcome(outcome).as_str(),
                ),
            );
        }
        self.flow_at = Some(now);
        if outcome.ok() {
            self.streak = 0;
        } else {
            self.count_failure();
        }
        assert(out@.says =~= want.1.says);
        out
    }

    /// A tick ends. Gives back the seconds to wait for the next.
    pub fn end(&mut self, now: u128) -> (r: u64)
        requires
            old(self).wf(),
        ensures
            final(self).wf(),
            r == next_wait(old(self)@),
            final(self)@ == ended(old(self)@, now),
    {
        let extra = if self.streak < MAX_BACKOFF {
            self.streak
        } else {
            MAX_BACKOFF
        };
        let times: u64 = 1 + extra as u64;
        let base = self.base;
        assert(base * times <= base * 6 && base * times == base as nat * (1 + extra as nat)
            && base * 6 <= u64::MAX) by (nonlinear_arith)
            requires
                times == 1 + extra,
                extra <= 5,
                base <= 3_074_457_345_618_258_602,
        ;
        self.wait = base * times;
        self.tick_at = now;
        self.wait
    }
}

/// What is said when the loop starts.
pub open spec fn greeting() -> Seq<SayModel> {
    flow::shout(
        false,
        "breadcrumbs watcher started"@,
        "Monitoring Wi-Fi; will auto-recover drops."@,
        Urgency::Low,
    ) + flow::note("watch: started"@)
}

/// What is said when the loop starts.
pub fn greet() -> (r: Vec<Say>)
    ensures
        flow::sayings(r@) == greeting(),
{
    let mut says: Vec<Say> = Vec::new();
    flow::say_notify(
        &mut says,
        false,
        "breadcrumbs watcher started",
        "Monitoring Wi-Fi; will auto-recover drops.".to_string(),
        Urgency::Low,
    );
    flow::say_log(&mut says, "watch: started".to_string());
    assert(flow::sayings(says@) =~= greeting());
    says
}

/// What the log says about a flow on start.
pub open spec fn initial_line(profile: Seq<char>, health: Health) -> Seq<char> {
    if health is Up {
        "watch: already healthy on start (profile="@ + profile + "); skipping initial flow"@
    } else {
        "watch: initial flow for profile="@ + profile
    }
}

/// Whether a flow is run on start, and what the log says about it: a connection
/// that works is left alone.
pub fn initial(profile: &str, health: Health) -> (r: (String, bool))
    ensures
        r.0@ == initial_line(profile@, health),
        r.1 == !(health is Up),
{
    match health {
        Health::Up => (
            "watch: already healthy on start (profile=".to_string().concat(profile).concat(
                "); skipping initial flow",
            ),
            false,
        ),
        _ => ("watch: initial flow for profile=".to_string().concat(profile), true),
    }
}

// ---- What holds of every tick --------------------------------------------

/// The loop never waits less than its interval, nor more than six times that.
pub proof fn the_wait_is_bounded(w: WatchModel)
    ensures
        w.base <= next_wait(w) <= 6 * w.base,
        w.streak == 0 ==> next_wait(w) == w.base,
{
    let extra: nat = if w.streak < MAX_BACKOFF {
        w.streak as nat
    } else {
        MAX_BACKOFF as nat
    };
    let base = w.base as nat;
    assert(base <= base * (1 + extra) <= 6 * base && (extra == 0 ==> base * (1 + extra) == base))
        by (nonlinear_arith)
        requires
            extra <= 5,
    ;
}

/// A state that lasts is announced once: the next tick with the same
/// classification shows nothing and publishes nothing.
pub proof fn a_lasting_state_is_announced_once(w: WatchModel, c: ClassModel, now: u128, later: u128)
    ensures
        ({
            let w2 = reacted(w, c, now).0;
            &&& announcement(w2, c) == Seq::<SayModel>::empty()
            &&& changes(w2, c) == Seq::<EventModel>::empty()
            &&& flow::no_notification(reacted(w2, c, later).1.says)
        }),
{
    let w2 = reacted(w, c, now).0;
    assert(changes(w2, c) =~= Seq::<EventModel>::empty());
}

/// After a flow the next one waits for the cooldown.
pub proof fn flows_are_paced(w: WatchModel, outcome: OutcomeModel, c: ClassModel, at: u128, now: u128)
    requires
        elapsed(now, at) < FLOW_COOLDOWN * SECOND,
    ensures
        !flow_due(recovered(w, outcome, at).0, c, now),
{
    let e = elapsed(now, at);
    assert(e / 1_000_000_000 < 20) by (nonlinear_arith)
        requires
            e < 20 * 1_000_000_000,
    ;
}

/// What is remembered of the last flow outlasts a tick in which the machine was
/// not suspended and the profile stayed the same.
pub proof fn the_cooldown_outlasts_a_tick(
    w: WatchModel,
    profile: Seq<char>,
    c: ClassModel,
    now: u128,
)
    ensures
        !resumed(w, now) ==> begun(w, profile, now).0.flow_at == w.flow_at,
        switched(w, profile).0.flow_at == w.flow_at,
        profile_seen(w, w.profile).0.flow_at == w.flow_at,
        reacted(w, c, now).0.flow_at == w.flow_at,
        ended(w, now).flow_at == w.flow_at,
{
}

/// A flow is run for a state that it may mend, at once where no cooldown counts,
/// and for no other state.
pub proof fn a_flow_is_run_exactly_when_it_may_help(w: WatchModel, c: ClassModel, now: u128)
    ensures
        c.health is Up || c.health is CaptivePortal || c.health is NoAdapter
            || c.health is UnknownProfile ==> !flow_due(w, c, now),
        w.flow_at is None && (c.health is DownNoNet || c.health is DownTailscaleOther
            || c.health is DownTailscaleManual) ==> flow_due(w, c, now),
{
}

/// A profile that was set by hand is left alone by the schedule until its grace
/// is over.
pub proof fn a_profile_set_by_hand_has_grace(
    w: WatchModel,
    profile: Seq<char>,
    scheduled: Option<Seq<char>>,
    at: u128,
    now: u128,
)
    requires
        set_by_hand(w, profile),
        elapsed(now, at) < SCHEDULE_GRACE * SECOND,
    ensures
        switch_due(begun(w, profile, at).0, profile, scheduled, now) is None,
{
}

/// A profile that the schedule itself has set is not taken for one set by hand.
pub proof fn the_schedule_does_not_hold_itself_back(w: WatchModel, profile: Seq<char>, now: u128)
    ensures
        !set_by_hand(switched(w, profile).0, profile),
        begun(switched(w, profile).0, profile, now).0.manual_at is None,
{
}

/// A change of the active profile is published, once; the profile that the loop
/// starts with is not.
pub proof fn a_profile_is_published_exactly_when_it_changes(
    w: WatchModel,
    profile: Seq<char>,
    interval: u64,
    now: u128,
)
    ensures
        profile != w.profile ==> profile_seen(w, profile).1.events == seq![
            bread_events::profile_changed(w.profile, profile),
        ],
        profile_seen(profile_seen(w, profile).0, profile).1.events == Seq::<EventModel>::empty(),
        profile_seen(started(interval, profile, now), profile).1.events == Seq::<
            EventModel,
        >::empty(),
{
}

/// What the loop publishes first, after its start and after a change of profile:
/// the health, and the network as one that comes from none.
pub proof fn a_first_observation_is_published(
    w: WatchModel,
    profile: Seq<char>,
    c: ClassModel,
    interval: u64,
    now: u128,
)
    ensures
        ({
            let fresh = if profile == w.profile {
                started(interval, profile, now)
            } else {
                profile_seen(w, profile).0
            };
            let events = changes(fresh, c);
            &&& events.len() > 0
            &&& events[0].name == "bread.crumbs.health.changed"@
            &&& c.ssid is Some ==> events.contains(
                bread_events::network_changed(None, c.ssid, profile),
            )
            &&& c.tailscale is Some ==> events.contains(
                bread_events::tailscale_changed(profile, tailscale_name(c), c.exit_node),
            )
        }),
{
    let fresh = if profile == w.profile {
        started(interval, profile, now)
    } else {
        profile_seen(w, profile).0
    };
    let events = changes(fresh, c);
    if c.ssid is Some {
        assert(events[1] == bread_events::network_changed(None, c.ssid, profile));
    }
    if c.tailscale is Some {
        assert(events.last() == bread_events::tailscale_changed(
            profile,
            tailscale_name(c),
            c.exit_node,
        ));
    }
}

/// A change of profile, or a suspension, allows recovery at once.
pub proof fn a_new_situation_allows_recovery(w: WatchModel, profile: Seq<char>, now: u128)
    ensures
        profile != w.profile ==> recovery_allowed(profile_seen(w, profile).0, now),
        resumed(w, now) ==> recovery_allowed(begun(w, profile, now).0, now),
{
}

/// What the health of a status is: the first that is amiss of interface, internet
/// and, where it is required, Tailscale.
pub proof fn health_is_the_first_thing_amiss(s: StatusModel)
    ensures
        ({
            let h = health_of(s);
            let there = s.iface is Some;
            let needs = s.internet && there && s.tailscale_required;
            &&& !there ==> h is NoAdapter
            &&& there && !s.internet && s.portal ==> h is CaptivePortal
            &&& there && !s.internet && !s.portal ==> h is DownNoNet
            &&& there && s.internet && !s.tailscale_required ==> h is Up
            &&& needs && s.tailscale is None ==> h is DownTailscaleManual
            &&& needs && s.tailscale is Some ==> match s.tailscale->Some_0 {
                HealthModel::Healthy => h is Up,
                HealthModel::NeedsLogin => h is DownTailscaleManual,
                HealthModel::NotInstalled => h is DownTailscaleManual,
                HealthModel::NoExitNode => h is DownTailscaleManual,
                _ => h is DownTailscaleOther,
            }
        }),
{
}

/// A classification carries what was observed, and nothing but the exit node where
/// there is no interface.
pub proof fn a_class_carries_what_was_observed(
    cfg: ConfigModel,
    profile: Seq<char>,
    o: ObservationModel,
)
    ensures
        ({
            let c = class_of(cfg, profile, o);
            let s = status::status_of(cfg, profile, o);
            &&& c.health == health_of(s)
            &&& c.exit_node == s.exit_node
            &&& o.iface is Some ==> c.iface == o.iface && c.ssid == o.ssid && c.ip == o.ip
                && c.tailscale == o.tailscale
            &&& o.iface is None ==> c.iface is None && c.ssid is None && c.ip is None
                && c.tailscale is None
        }),
{
}

/// Where nothing but churn woke the loop, there is no action.
pub proof fn churn_is_no_action(wakes: Seq<WakeModel>)
    requires
        forall|j: int| 0 <= j < wakes.len() ==> (#[trigger] wakes[j]) is LinkChurn,
    ensures
        first_action(wakes) is None,
    decreases wakes.len(),
{
    if wakes.len() > 0 {
        let rest = wakes.drop_first();
        assert(wakes[0] is LinkChurn);
        assert forall|j: int| 0 <= j < rest.len() implies (#[trigger] rest[j]) is LinkChurn by {
            assert(rest[j] == wakes[j + 1]);
        }
        churn_is_no_action(rest);
    }
}

/// Each of the words for a loss is enough, wherever it stands in the line; without
/// any of them a line speaks of none.
pub proof fn one_word_of_loss_is_enough(a: Seq<char>, b: Seq<char>, line: Seq<char>)
    ensures
        speaks_of_loss(a + "disconnect"@ + b),
        speaks_of_loss(a + "unavailable"@ + b),
        speaks_of_loss(a + "failed"@ + b),
        speaks_of_loss(a + "deactivating"@ + b),
        speaks_of_loss(a + "connectivity"@ + b),
        !text::occurs_in("disconnect"@, line) && !text::occurs_in("unavailable"@, line)
            && !text::occurs_in("failed"@, line) && !text::occurs_in("deactivating"@, line)
            && !text::occurs_in("connectivity"@, line) ==> !speaks_of_loss(line),
{
    text::an_occurrence_is_a_part("disconnect"@, line, a, b);
    text::an_occurrence_is_a_part("unavailable"@, line, a, b);
    text::an_occurrence_is_a_part("failed"@, line, a, b);
    text::an_occurrence_is_a_part("deactivating"@, line, a, b);
    text::an_occurrence_is_a_part("connectivity"@, line, a, b);
}

/// The schedule is asked with the time of day; without a time that can be read it
/// wants nothing.
pub proof fn without_a_time_there_is_no_schedule(cfg: ConfigModel, t: Seq<char>)
    ensures
        scheduled_at(cfg, None) is None,
        config::minutes(t) is None ==> scheduled_at(cfg, Some(t)) is None,
        config::minutes(t) is Some ==> scheduled_at(cfg, Some(t)) == config::scheduled(
            cfg.settings.schedule,
            config::minutes(t)->Some_0 as int,
        ),
{
}

/// A loop starts with nothing remembered, and with no interval shorter than four
/// seconds.
pub proof fn a_loop_starts_afresh(interval: u64, profile: Seq<char>, now: u128)
    ensures
        ({
            let w = started(interval, profile, now);
            &&& interval >= 4 ==> w.base == interval
            &&& interval < 4 ==> w.base == 4
            &&& w.wait == w.base
            &&& w.tick_at == now
            &&& w.profile == profile
            &&& w.applied == Some(profile)
            &&& w.streak == 0
            &&& w.health is None && w.ssid is None && w.tailscale is None && w.flow_at is None
                && w.manual_at is None
        }),
{
}

/// A tick that comes more than a minute late, by nanoseconds, is one after a
/// suspension; a clock that went back is none.
pub proof fn a_late_tick_is_a_resume(w: WatchModel, profile: Seq<char>, now: u128)
    ensures
        resumed(w, now) <==> now - w.tick_at > (w.wait + 60) * 1_000_000_000,
        resumed(w, now) ==> begun(w, profile, now).0.flow_at is None,
{
    assert((w.wait + 60) * 1_000_000_000 >= 0) by (nonlinear_arith)
        requires
            w.wait >= 0,
    ;
}

/// A profile that is not the one the loop applied last was set by hand, just now.
pub proof fn another_profile_was_set_by_hand(
    w: WatchModel,
    profile: Seq<char>,
    p: Seq<char>,
    now: u128,
)
    ensures
        ({
            let v = begun(w, profile, now).0;
            &&& v.applied == Some(profile)
            &&& w.applied == Some(p) && p != profile ==> v.manual_at == Some(now)
            &&& w.applied == Some(profile) || w.applied is None ==> v.manual_at == w.manual_at
            &&& v.base == w.base && v.health == w.health && v.profile == w.profile && v.streak
                == w.streak
        }),
{
}

/// What the schedule wants is switched to, unless it is active already or a
/// profile was set by hand less than half an hour ago.
pub proof fn the_schedule_is_followed(
    w: WatchModel,
    profile: Seq<char>,
    s: Seq<char>,
    at: u128,
    now: u128,
)
    ensures
        switch_due(w, profile, None, now) is None,
        switch_due(w, s, Some(s), now) is None,
        s != profile && w.manual_at is None ==> switch_due(w, profile, Some(s), now) == Some(s),
        s != profile && w.manual_at == Some(at) && now - at >= 1800 * 1_000_000_000 ==> switch_due(
            w,
            profile,
            Some(s),
            now,
        ) == Some(s),
        s != profile && w.manual_at == Some(at) && now - at < 1800 * 1_000_000_000 ==> switch_due(
            w,
            profile,
            Some(s),
            now,
        ) is None,
        switched(w, s).0.applied == Some(s),
{
}

/// A flow is due again twenty full seconds after the last one ended, not before.
pub proof fn the_cooldown_ends(w: WatchModel, c: ClassModel, at: u128, now: u128)
    requires
        w.flow_at == Some(at),
        c.health is DownNoNet || c.health is DownTailscaleOther || c.health is DownTailscaleManual,
    ensures
        now - at >= 20 * 1_000_000_000 ==> flow_due(w, c, now),
        now - at < 20 * 1_000_000_000 ==> !flow_due(w, c, now),
{
    let e = elapsed(now, at);
    assert(e < 20 * 1_000_000_000 <==> e / 1_000_000_000 < 20);
}

/// Each failure in a row adds one interval to the wait, up to five.
pub proof fn failures_lengthen_the_wait(w: WatchModel)
    ensures
        w.streak <= 5 ==> next_wait(w) == w.base * (1 + w.streak),
        w.streak >= 5 ==> next_wait(w) == w.base * 6,
{
}

/// A flow that connected ends the failures in a row, any other adds one; so do an
/// interface or a profile that is not there. A working connection ends them, and
/// so does a portal.
pub proof fn failures_are_counted(w: WatchModel, c: ClassModel, o: OutcomeModel, now: u128)
    requires
        w.streak < u32::MAX,
    ensures
        recovered(w, o, now).0.flow_at == Some(now),
        o is Connected ==> recovered(w, o, now).0.streak == 0,
        !(o is Connected) ==> recovered(w, o, now).0.streak == w.streak + 1,
        c.health is Up || c.health is CaptivePortal ==> reacted(w, c, now).0.streak == 0,
        c.health is NoAdapter || c.health is UnknownProfile ==> reacted(w, c, now).0.streak
            == w.streak + 1,
        c.health is DownNoNet || c.health is DownTailscaleManual || c.health is DownTailscaleOther
            ==> reacted(w, c, now).0.streak == w.streak,
{
}

/// What changed is published, and only that: health, network and Tailscale state,
/// in this order.
pub proof fn what_changed_is_published(w: WatchModel, c: ClassModel, now: u128)
    ensures
        ({
            let e = changes(w, c);
            let name = if c.tailscale is Some {
                Some(tailscale::state_name(c.tailscale->Some_0))
            } else {
                None
            };
            let a: int = if w.health != Some(c.health) {
                1
            } else {
                0
            };
            let b: int = if w.ssid != c.ssid {
                1
            } else {
                0
            };
            let t: int = if w.tailscale != name {
                1
            } else {
                0
            };
            &&& e.len() == a + b + t
            &&& a == 1 ==> e[0].name == "bread.crumbs.health.changed"@
            &&& b == 1 ==> e[a] == bread_events::network_changed(w.ssid, c.ssid, w.profile)
            &&& t == 1 ==> e[a + b] == bread_events::tailscale_changed(w.profile, name, c.exit_node)
            &&& reacted(w, c, now).1.events == e
            &&& reacted(w, c, now).0.health == Some(c.health)
            &&& reacted(w, c, now).0.ssid == c.ssid
            &&& reacted(w, c, now).0.tailscale == name
        }),
{
}

/// A change of health is announced, but for a first look that finds all well; how
/// urgently goes by what happened.
pub proof fn a_change_is_announced(w: WatchModel, c: ClassModel)
    requires
        w.health != Some(c.health),
    ensures
        ({
            let a = announcement(w, c);
            &&& c.health is Up && w.health is None ==> a.len() == 0
            &&& !(c.health is Up && w.health is None) ==> a.len() == 1 && (
            a[0] matches SayModel::Notify(_, _, u) && (u is Low <==> c.health is Up) && (u
                is Critical <==> c.health is NoAdapter || c.health is UnknownProfile
                || c.health is DownTailscaleManual))
        }),
{
}

/// A switch that the grace holds back is logged, and nothing else is.
pub proof fn what_is_held_back_is_logged(
    w: WatchModel,
    profile: Seq<char>,
    s: Seq<char>,
    at: u128,
    now: u128,
)
    ensures
        held_back(w, profile, None, now).len() == 0,
        held_back(w, s, Some(s), now).len() == 0,
        w.manual_at is None ==> held_back(w, profile, Some(s), now).len() == 0,
        s != profile && w.manual_at == Some(at) && now - at < 1800 * 1_000_000_000 ==> held_back(
            w,
            profile,
            Some(s),
            now,
        ) == seq![
            SayModel::Log(
                "watch: schedule would switch to "@ + s
                    + ", but a manual set is still in grace"@,
            ),
        ],
        w.manual_at == Some(at) && now - at >= 1800 * 1_000_000_000 ==> held_back(
            w,
            profile,
            Some(s),
            now,
        ).len() == 0,
{
}

/// A loss is logged with what follows from it: a flow, or none for the cooldown.
/// What came of a flow is logged, unless it waits for a person.
pub proof fn a_recovery_is_logged(w: WatchModel, c: ClassModel, o: OutcomeModel, now: u128)
    ensures
        ({
            let n = recovery_note(w, c, now);
            let down = c.health is DownNoNet || c.health is DownTailscaleOther;
            &&& !down ==> n.len() == 0
            &&& down && !flow_due(w, c, now) ==> n == seq![
                SayModel::Log(
                    "watch: down ("@ + health_name(c.health) + ") — cooldown, skipping flow"@,
                ),
            ]
            &&& down && flow_due(w, c, now) ==> n == seq![
                SayModel::Log(
                    "watch: down ("@ + health_name(c.health) + ") profile="@ + w.profile
                        + " ssid="@ + text::quoted_option(c.ssid) + " — running flow"@,
                ),
            ]
        }),
        w.health == Some(Health::DownTailscaleManual) ==> recovered(w, o, now).1.says.len() == 0,
        w.health != Some(Health::DownTailscaleManual) ==> recovered(w, o, now).1.says == seq![
            SayModel::Log("watch: recovery outcome = "@ + flow::outcome_text(o)),
        ],
        health_name(Health::Up) == "Up"@,
        health_name(Health::DownNoNet) == "DownNoNet"@,
        health_name(Health::CaptivePortal) == "CaptivePortal"@,
        health_name(Health::DownTailscaleManual) == "DownTailscaleManual"@,
        health_name(Health::DownTailscaleOther) == "DownTailscaleOther"@,
        health_name(Health::NoAdapter) == "NoAdapter"@,
        health_name(Health::UnknownProfile) == "UnknownProfile"@,
{
}

} // verus!
