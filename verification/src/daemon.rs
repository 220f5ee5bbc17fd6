//! The rounds of the watch daemon: what it asks of the outside world, in which
//! order, and what it makes of the answers.

use vstd::prelude::*;

use crate::backend;
use crate::bread_events;
use crate::flow;
use crate::flow::{Outcome, OutcomeModel};
use crate::text;
use crate::watch;
use crate::watch::{
    ClassModel, Classification, Effects, EffectsModel, Wake, WakeModel, Watch, WatchModel,
};

verus! {

/// Which answer the daemon waits for.
#[derive(Debug, Clone, Copy, PartialEq, Eq, Structural)]
pub enum Phase {
    /// How the active profile is doing on start.
    Initial,
    /// The flow on start.
    InitialFlow,
    /// Which profile is active.
    Load,
    /// What the schedule wants.
    Clock,
    /// The switch that the schedule wanted.
    Switch,
    /// How the active profile is doing.
    Look,
    /// The flow that may mend it.
    Recovery,
    /// The wait for the next round.
    Sleep,
    /// The profile that a command asked for.
    Apply,
}

/// What the daemon asks of the outside world.
#[derive(Debug)]
pub enum Ask {
    /// Read configuration and state anew, for the active profile.
    Load,
    /// The profile that the schedule wants now.
    ReadSchedule,
    /// Make this the active profile, for the schedule.
    SetProfile(String),
    /// Classify this profile.
    Classify(String),
    /// Run the flow for this profile, quietly.
    RunFlow(String),
    /// Wait this many seconds, or until woken.
    Wait(u64),
    /// Make this the active profile, for a command.
    Apply(String),
}

pub enum AskModel {
    Load,
    ReadSchedule,
    SetProfile(Seq<char>),
    Classify(Seq<char>),
    RunFlow(Seq<char>),
    Wait(nat),
    Apply(Seq<char>),
}

impl View for Ask {
    type V = AskModel;

    open spec fn view(&self) -> AskModel {
        match self {
            Ask::Load => AskModel::Load,
            Ask::ReadSchedule => AskModel::ReadSchedule,
            Ask::SetProfile(p) => AskModel::SetProfile(p@),
            Ask::Classify(p) => AskModel::Classify(p@),
            Ask::RunFlow(p) => AskModel::RunFlow(p@),
            Ask::Wait(secs) => AskModel::Wait(*secs as nat),
            Ask::Apply(p) => AskModel::Apply(p@),
        }
    }
}

/// What came of it.
#[derive(Debug)]
pub enum Reply {
    Profile(String),
    Scheduled(Option<String>),
    /// Whether the switch was made.
    Switched(bool),
    Class(Classification),
    Ended(Outcome),
    /// The signals that came, in order.
    Woken(Vec<Wake>),
    Applied(Result<(), String>),
}

pub enum ReplyModel {
    Profile(Seq<char>),
    Scheduled(Option<Seq<char>>),
    Switched(bool),
    Class(ClassModel),
    Ended(OutcomeModel),
    Woken(Seq<WakeModel>),
    Applied(Result<(), Seq<char>>),
}

impl Reply {
    /// Whether the events that follow are published before anything is said: an
    /// observation is published first, all else is said first.
    pub fn events_first(&self) -> (r: bool)
        ensures
            r == (self@ is Class),
    {
        match self {
            Reply::Class(_) => true,
            _ => false,
        }
    }
}

impl View for Reply {
    type V = ReplyModel;

    open spec fn view(&self) -> ReplyModel {
        match self {
            Reply::Profile(p) => ReplyModel::Profile(p@),
            Reply::Scheduled(s) => ReplyModel::Scheduled(text::opt_view(*s)),
            Reply::Switched(done) => ReplyModel::Switched(*done),
            Reply::Class(c) => ReplyModel::Class(c@),
            Reply::Ended(o) => ReplyModel::Ended(o@),
            Reply::Woken(w) => ReplyModel::Woken(watch::wake_models(w@)),
            Reply::Applied(r) => ReplyModel::Applied(backend::result_view(*r)),
        }
    }
}

/// The daemon, between two things it waits for.
#[verifier::ext_equal]
pub struct DaemonModel {
    pub watch: WatchModel,
    /// The active profile, as it was last read.
    pub active: Seq<char>,
    /// The profile to switch to, while a switch is under way.
    pub wanted: Seq<char>,
    pub phase: Phase,
}

/// The next state, what is said and published on the way, and what is asked
/// then.
#[verifier::ext_equal]
pub struct RoundModel {
    pub state: DaemonModel,
    pub effects: EffectsModel,
    pub ask: AskModel,
}

/// Nothing said and nothing published.
pub open spec fn nothing() -> EffectsModel {
    EffectsModel { says: Seq::empty(), events: Seq::empty() }
}

/// A line for the log.
pub open spec fn note(line: Seq<char>) -> EffectsModel {
    EffectsModel { says: flow::note(line), events: Seq::empty() }
}

/// `round`, with something said and published first.
pub open spec fn first(e: EffectsModel, round: RoundModel) -> RoundModel {
    RoundModel {
        effects: EffectsModel {
            says: e.says + round.effects.says,
            events: e.events + round.effects.events,
        },
        ..round
    }
}

/// The daemon asks this next.
pub open spec fn on(s: DaemonModel, phase: Phase, ask: AskModel) -> RoundModel {
    RoundModel { state: DaemonModel { phase, ..s }, effects: nothing(), ask }
}

/// A round begins: everything is read anew.
pub open spec fn load(s: DaemonModel) -> RoundModel {
    on(s, Phase::Load, AskModel::Load)
}

/// The daemon is done with what came before the first round.
pub open spec fn ready(s: DaemonModel, now: u128) -> RoundModel {
    load(DaemonModel { watch: WatchModel { tick_at: now, ..s.watch }, ..s })
}

/// The active profile is looked at; one that is new is announced first.
pub open spec fn look(s: DaemonModel) -> RoundModel {
    let (w, e) = watch::profile_seen(s.watch, s.active);
    first(e, on(DaemonModel { watch: w, ..s }, Phase::Look, AskModel::Classify(s.active)))
}

/// A round ends with a wait.
pub open spec fn sleep(s: DaemonModel, now: u128) -> RoundModel {
    on(
        DaemonModel { watch: watch::ended(s.watch, now), ..s },
        Phase::Sleep,
        AskModel::Wait(watch::next_wait(s.watch)),
    )
}

/// The daemon starts. Where a flow may be run on start, it first finds out
/// whether one is needed.
pub open spec fn start(
    interval: u64,
    profile: Seq<char>,
    run_initial: bool,
    now: u128,
) -> RoundModel {
    let s = DaemonModel {
        watch: watch::started(interval, profile, now),
        active: profile,
        wanted: Seq::empty(),
        phase: Phase::Load,
    };
    first(
        EffectsModel { says: watch::greeting(), events: Seq::empty() },
        if run_initial {
            on(s, Phase::Initial, AskModel::Classify(profile))
        } else {
            load(s)
        },
    )
}

/// The kind of reply that each phase waits for.
pub open spec fn fits(phase: Phase, reply: ReplyModel) -> bool {
    match phase {
        Phase::Initial | Phase::Look => reply is Class,
        Phase::InitialFlow | Phase::Recovery => reply is Ended,
        Phase::Load => reply is Profile,
        Phase::Clock => reply is Scheduled,
        Phase::Switch => reply is Switched,
        Phase::Sleep => reply is Woken,
        Phase::Apply => reply is Applied,
    }
}

/// What follows when `reply` is what the daemon waited for.
pub open spec fn step(s: DaemonModel, reply: ReplyModel, now: u128) -> RoundModel {
    match (s.phase, reply) {
        (Phase::Initial, ReplyModel::Class(c)) => first(
            note(watch::initial_line(s.active, c.health)),
            if c.health is Up {
                ready(s, now)
            } else {
                on(s, Phase::InitialFlow, AskModel::RunFlow(s.active))
            },
        ),
        (Phase::InitialFlow, _) => ready(s, now),
        (Phase::Load, ReplyModel::Profile(p)) => {
            let (w, e) = watch::begun(s.watch, p, now);
            first(
                e,
                on(
                    DaemonModel { watch: w, active: p, ..s },
                    Phase::Clock,
                    AskModel::ReadSchedule,
                ),
            )
        },
        (Phase::Clock, ReplyModel::Scheduled(wish)) => first(
            EffectsModel {
                says: watch::held_back(s.watch, s.active, wish, now),
                events: Seq::empty(),
            },
            match watch::switch_due(s.watch, s.active, wish, now) {
                Some(p) => on(
                    DaemonModel { wanted: p, ..s },
                    Phase::Switch,
                    AskModel::SetProfile(p),
                ),
                None => look(s),
            },
        ),
        (Phase::Switch, ReplyModel::Switched(done)) => if done {
            let (w, e) = watch::switched(s.watch, s.wanted);
            first(e, look(DaemonModel { watch: w, ..s }))
        } else {
            look(s)
        },
        (Phase::Look, ReplyModel::Class(c)) => {
            let (w, e) = watch::reacted(s.watch, c, now);
            let s2 = DaemonModel { watch: w, ..s };
            first(
                e,
                if watch::flow_due(s.watch, c, now) {
                    on(s2, Phase::Recovery, AskModel::RunFlow(s.active))
                } else {
                    sleep(s2, now)
                },
            )
        },
        (Phase::Recovery, ReplyModel::Ended(o)) => {
            let (w, e) = watch::recovered(s.watch, o, now);
            first(e, sleep(DaemonModel { watch: w, ..s }, now))
        },
        (Phase::Sleep, ReplyModel::Woken(wakes)) => match watch::first_action(wakes) {
            Some(p) => on(DaemonModel { wanted: p, ..s }, Phase::Apply, AskModel::Apply(p)),
            None => load(s),
        },
        (Phase::Apply, ReplyModel::Applied(r)) => {
            let (line, event) = bread_events::applied(s.wanted, r);
            first(EffectsModel { says: flow::note(line), events: seq![event] }, load(s))
        },
        _ => load(s),
    }
}

/// The daemon, between two things it waits for.
#[derive(Debug)]
pub struct Daemon {
    watch: Watch,
    active: String,
    wanted: String,
    phase: Phase,
}

impl View for Daemon {
    type V = DaemonModel;

    closed spec fn view(&self) -> DaemonModel {
        DaemonModel {
            watch: self.watch@,
            active: self.active@,
            wanted: self.wanted@,
            phase: self.phase,
        }
    }
}

fn none() -> (r: Effects)
    ensures
        r@ == nothing(),
{
    let r = Effects { says: Vec::new(), events: Vec::new() };
    assert(r@ =~= nothing());
    r
}

fn line(l: String) -> (r: Effects)
    ensures
        r@ == note(l@),
{
    let mut r = none();
    flow::say_log(&mut r.says, l);
    assert(r@ =~= note(l@));
    r
}

fn together(a: Effects, b: Effects) -> (r: Effects)
    ensures
        r@.says == a@.says + b@.says,
        r@.events == a@.events + b@.events,
{
    let mut r = a;
    let mut rest = b;
    r.says.append(&mut rest.says);
    r.events.append(&mut rest.events);
    assert(r@.says =~= a@.says + b@.says);
    assert(r@.events =~= a@.events + b@.events);
    r
}

impl Daemon {
    /// The waits between two rounds can be counted.
    pub closed spec fn wf(&self) -> bool {
        self.watch.wf()
    }

    /// The daemon starts with this interval, in seconds, and this profile.
    pub fn new(interval: u64, profile: &str, run_initial: bool, now: u128) -> (r: (
        Daemon,
        Effects,
        Ask,
    ))
        requires
            interval <= watch::MAX_INTERVAL,
        ensures
            r.0.wf(),
            (RoundModel { state: r.0@, effects: r.1@, ask: r.2@ }) == start(
                interval,
                profile@,
                run_initial,
                now,
            ),
    {
        let d = Daemon {
            watch: Watch::new(interval, profile, now),
            active: profile.to_string(),
            wanted: String::new(),
            phase: if run_initial {
                Phase::Initial
            } else {
                Phase::Load
            },
        };
        let e = Effects { says: watch::greet(), events: Vec::new() };
        let ask = if run_initial {
            Ask::Classify(profile.to_string())
        } else {
            Ask::Load
        };
        assert(d@.wanted =~= Seq::<char>::empty());
        assert(e@ =~= start(interval, profile@, run_initial, now).effects);
        (d, e, ask)
    }

    fn load(&mut self) -> (r: Ask)
        ensures
            final(self).wf() == old(self).wf(),
            final(self)@ == load(old(self)@).state,
            r@ == load(old(self)@).ask,
    {
        self.phase = Phase::Load;
        Ask::Load
    }

    fn ready(&mut self, now: u128) -> (r: Ask)
        requires
            old(self).wf(),
        ensures
            final(self).wf(),
            final(self)@ == ready(old(self)@, now).state,
            r@ == ready(old(self)@, now).ask,
    {
        self.watch.ready(now);
        self.load()
    }

    fn run_flow(&mut self, phase: Phase) -> (r: Ask)
        ensures
            final(self).wf() == old(self).wf(),
            final(self)@ == (DaemonModel { phase, ..old(self)@ }),
            r@ == AskModel::RunFlow(old(self)@.active),
    {
        self.phase = phase;
        Ask::RunFlow(self.active.clone())
    }

    fn look(&mut self) -> (r: (Effects, Ask))
        requires
            old(self).wf(),
        ensures
            final(self).wf(),
            (RoundModel { state: final(self)@, effects: r.0@, ask: r.1@ }) == look(old(self)@),
    {
        let ghost want = look(self@);
        let e = self.watch.see_profile(self.active.as_str());
        self.phase = Phase::Look;
        assert(e@ =~= want.effects);
        (e, Ask::Classify(self.active.clone()))
    }

    fn sleep(&mut self, now: u128) -> (r: Ask)
        requires
            old(self).wf(),
        ensures
            final(self).wf(),
            final(self)@ == sleep(old(self)@, now).state,
            r@ == sleep(old(self)@, now).ask,
    {
        let secs = self.watch.end(now);
        self.phase = Phase::Sleep;
        Ask::Wait(secs)
    }

    fn take_class(&mut self, c: &Classification, now: u128) -> (r: (Effects, Ask))
        requires
            old(self).wf(),
            old(self)@.phase is Initial || old(self)@.phase is Look,
        ensures
            final(self).wf(),
            (RoundModel { state: final(self)@, effects: r.0@, ask: r.1@ }) == step(
                old(self)@,
                ReplyModel::Class(c@),
                now,
            ),
    {
        let ghost want = step(self@, ReplyModel::Class(c@), now);
        let (e, ask) = if self.phase == Phase::Initial {
            let (l, needed) = watch::initial(self.active.as_str(), c.health);
            let ask = if needed {
                self.run_flow(Phase::InitialFlow)
            } else {
                self.ready(now)
            };
            (line(l), ask)
        } else {
            let (e, due) = self.watch.react(c, now);
            let ask = if due {
                self.run_flow(Phase::Recovery)
            } else {
                self.sleep(now)
            };
            (e, ask)
        };
        assert(e@ =~= want.effects);
        (e, ask)
    }

    fn take_outcome(&mut self, o: &Outcome, now: u128) -> (r: (Effects, Ask))
        requires
            old(self).wf(),
            old(self)@.phase is InitialFlow || old(self)@.phase is Recovery,
        ensures
            final(self).wf(),
            (RoundModel { state: final(self)@, effects: r.0@, ask: r.1@ }) == step(
                old(self)@,
                ReplyModel::Ended(o@),
                now,
            ),
    {
        let ghost want = step(self@, ReplyModel::Ended(o@), now);
        let (e, ask) = if self.phase == Phase::InitialFlow {
            (none(), self.ready(now))
        } else {
            let e = self.watch.recovered(o, now);
            (e, self.sleep(now))
        };
        assert(e@ =~= want.effects);
        (e, ask)
    }

    fn take_schedule(&mut self, wish: &Option<String>, now: u128) -> (r: (Effects, Ask))
        requires
            old(self).wf(),
            old(self)@.phase is Clock,
        ensures
            final(self).wf(),
            (RoundModel { state: final(self)@, effects: r.0@, ask: r.1@ }) == step(
                old(self)@,
                ReplyModel::Scheduled(text::opt_view(*wish)),
                now,
            ),
    {
        let ghost want = step(self@, ReplyModel::Scheduled(text::opt_view(*wish)), now);
        let (due, e) = self.watch.schedule(self.active.as_str(), wish, now);
        let (more, ask) = match due {
            Some(p) => {
                self.wanted = p.clone();
                self.phase = Phase::Switch;
                (none(), Ask::SetProfile(p))
            },
            None => self.look(),
        };
        let out = together(e, more);
        assert(out@ =~= want.effects);
        (out, ask)
    }

    fn take_switch(&mut self, done: bool, now: u128) -> (r: (Effects, Ask))
        requires
            old(self).wf(),
            old(self)@.phase is Switch,
        ensures
            final(self).wf(),
            (RoundModel { state: final(self)@, effects: r.0@, ask: r.1@ }) == step(
                old(self)@,
                ReplyModel::Switched(done),
                now,
            ),
    {
        let ghost want = step(self@, ReplyModel::Switched(done), now);
        let e = if done {
            self.watch.switched(self.wanted.clone())
        } else {
            none()
        };
        let (more, ask) = self.look();
        let out = together(e, more);
        assert(out@ =~= want.effects);
        (out, ask)
    }

    /// Takes what came of the last question, and the time since the start in
    /// nanoseconds; gives what is to be said and published, and the next
    /// question.
    pub fn next(&mut self, reply: Reply, now: u128) -> (r: (Effects, Ask))
        requires
            old(self).wf(),
            fits(old(self)@.phase, reply@),
        ensures
            final(self).wf(),
            (RoundModel { state: final(self)@, effects: r.0@, ask: r.1@ }) == step(
                old(self)@,
                reply@,
                now,
            ),
    {
        let ghost want = step(self@, reply@, now);
        match reply {
            Reply::Profile(p) => {
                let e = self.watch.begin(p.as_str(), now);
                self.active = p;
                self.phase = Phase::Clock;
                assert(e@ =~= want.effects);
                (e, Ask::ReadSchedule)
            },
            Reply::Scheduled(wish) => self.take_schedule(&wish, now),
            Reply::Switched(done) => self.take_switch(done, now),
            Reply::Class(c) => self.take_class(&c, now),
            Reply::Ended(o) => self.take_outcome(&o, now),
            Reply::Woken(wakes) => {
                let ask = match watch::wait_for_tick(&wakes) {
                    Some(Wake::SetProfile(p)) => {
                        self.wanted = p.clone();
                        self.phase = Phase::Apply;
                        Ask::Apply(p)
                    },
                    _ => self.load(),
                };
                let e = none();
                assert(e@ =~= want.effects);
                (e, ask)
            },
            Reply::Applied(r) => {
                let (l, event) = bread_events::apply_set_profile(self.wanted.as_str(), &r);
                let mut e = line(l);
                e.events.push(event);
                assert(e@ =~= want.effects);
                (e, self.load())
            },
        }
    }
}

// ---- What holds of every round -------------------------------------------

/// Every round reads configuration and state anew before anything is looked at:
/// after a wait, and after a command was carried out, comes a load.
pub proof fn a_round_begins_with_a_load(s: DaemonModel, reply: ReplyModel, now: u128)
    requires
        s.phase is Sleep || s.phase is Apply,
        fits(s.phase, reply),
    ensures
        ({
            let ask = step(s, reply, now).ask;
            ask is Load || s.phase is Sleep && ask is Apply
        }),
{
}

/// A command that came during a wait is carried out before the next round; of
/// several, the earliest.
pub proof fn a_command_is_carried_out(
    s: DaemonModel,
    wakes: Seq<WakeModel>,
    i: int,
    p: Seq<char>,
    now: u128,
)
    requires
        s.phase is Sleep,
        0 <= i < wakes.len(),
        wakes[i] == WakeModel::SetProfile(p),
        forall|j: int| 0 <= j < i ==> (#[trigger] wakes[j]) is LinkChurn,
    ensures
        step(s, ReplyModel::Woken(wakes), now).ask == AskModel::Apply(p),
{
    watch::the_earliest_action_is_kept(wakes, i, p);
}

/// What is classified, and what a flow is run for, is the profile that was read
/// as the active one.
pub proof fn only_the_active_profile_is_acted_on(s: DaemonModel, reply: ReplyModel, now: u128)
    requires
        fits(s.phase, reply),
    ensures
        ({
            let t = step(s, reply, now);
            &&& t.ask matches AskModel::Classify(p) ==> p == t.state.active
            &&& t.ask matches AskModel::RunFlow(p) ==> p == t.state.active
            &&& reply matches ReplyModel::Profile(p) ==> t.state.active == p
            &&& !(reply is Profile) ==> t.state.active == s.active
        }),
{
}

/// A flow is followed by a wait, and so is a look that finds no reason for one:
/// in a round there is at most one flow.
pub proof fn a_round_has_at_most_one_flow(s: DaemonModel, reply: ReplyModel, now: u128)
    requires
        s.phase is Look || s.phase is Recovery,
        fits(s.phase, reply),
    ensures
        ({
            let ask = step(s, reply, now).ask;
            ask is Wait || s.phase is Look && ask is RunFlow
        }),
{
}

/// The daemon never waits less than its interval, nor more than six times that,
/// and its interval stays what it was on start.
pub proof fn every_wait_is_bounded(s: DaemonModel, reply: ReplyModel, now: u128)
    requires
        fits(s.phase, reply),
    ensures
        ({
            let t = step(s, reply, now);
            &&& t.state.watch.base == s.watch.base
            &&& t.ask matches AskModel::Wait(secs) ==> s.watch.base <= secs <= 6 * s.watch.base
        }),
{
    match (s.phase, reply) {
        (Phase::Look, ReplyModel::Class(c)) => {
            watch::the_wait_is_bounded(watch::reacted(s.watch, c, now).0);
        },
        (Phase::Recovery, ReplyModel::Ended(o)) => {
            watch::the_wait_is_bounded(watch::recovered(s.watch, o, now).0);
        },
        _ => {},
    }
}

/// A daemon that starts on a connection that works leaves it alone.
pub proof fn a_working_connection_is_left_alone(
    interval: u64,
    profile: Seq<char>,
    c: ClassModel,
    now: u128,
    later: u128,
)
    requires
        c.health is Up,
    ensures
        ({
            let s = start(interval, profile, true, now).state;
            step(s, ReplyModel::Class(c), later).ask == AskModel::Load
        }),
{
}

/// A round in its order: the active profile is read, the schedule asked, what it
/// wants set where that is due, and the profile looked at.
pub proof fn a_round_goes_step_by_step(
    s: DaemonModel,
    p: Seq<char>,
    wish: Option<Seq<char>>,
    done: bool,
    now: u128,
)
    ensures
        s.phase is Load ==> {
            let t = step(s, ReplyModel::Profile(p), now);
            t.ask is ReadSchedule && t.state.active == p && t.state.watch == watch::begun(
                s.watch,
                p,
                now,
            ).0
        },
        s.phase is Clock ==> {
            let t = step(s, ReplyModel::Scheduled(wish), now);
            match watch::switch_due(s.watch, s.active, wish, now) {
                Some(q) => t.ask == AskModel::SetProfile(q) && t.state.wanted == q,
                None => t.ask == AskModel::Classify(s.active),
            }
        },
        s.phase is Switch ==> {
            let t = step(s, ReplyModel::Switched(done), now);
            &&& t.ask == AskModel::Classify(s.active)
            &&& done ==> t.state.watch.applied == Some(s.wanted) && t.state.watch.manual_at is None
            &&& !done ==> t.state.watch.applied == s.watch.applied && t.state.watch.manual_at
                == s.watch.manual_at
        },
{
}

/// A look leads to a flow exactly where one is due, and else to a wait; what came
/// of a flow counts for the wait after it.
pub proof fn a_look_leads_to_a_flow_or_a_wait(
    s: DaemonModel,
    c: ClassModel,
    o: OutcomeModel,
    now: u128,
)
    ensures
        s.phase is Look ==> {
            let t = step(s, ReplyModel::Class(c), now);
            &&& watch::flow_due(s.watch, c, now) ==> t.ask == AskModel::RunFlow(s.active)
            &&& !watch::flow_due(s.watch, c, now) ==> t.ask == AskModel::Wait(
                watch::next_wait(watch::reacted(s.watch, c, now).0),
            ) && t.state.watch.tick_at == now
            &&& t.effects.events == watch::changes(s.watch, c)
            &&& t.state.watch.health == Some(c.health)
        },
        s.phase is Recovery ==> {
            let t = step(s, ReplyModel::Ended(o), now);
            &&& t.ask == AskModel::Wait(watch::next_wait(watch::recovered(s.watch, o, now).0))
            &&& t.state.watch.flow_at == Some(now)
            &&& t.state.watch.tick_at == now
        },
{
    if s.phase is Look {
        let t = step(s, ReplyModel::Class(c), now);
        assert(t.effects.events =~= watch::changes(s.watch, c));
    }
}

/// A daemon looks first where it is asked to, and runs a flow on a connection that
/// does not work. Nothing but churn leads to the next round at once, and the result
/// of a command is published.
pub proof fn a_daemon_starts_with_a_look(
    s: DaemonModel,
    interval: u64,
    profile: Seq<char>,
    c: ClassModel,
    o: OutcomeModel,
    wakes: Seq<WakeModel>,
    r: Result<(), Seq<char>>,
    now: u128,
)
    requires
        forall|j: int| 0 <= j < wakes.len() ==> (#[trigger] wakes[j]) is LinkChurn,
    ensures
        start(interval, profile, true, now).ask == AskModel::Classify(profile),
        start(interval, profile, false, now).ask is Load,
        start(interval, profile, true, now).state.watch == watch::started(interval, profile, now),
        s.phase is Initial && !(c.health is Up) ==> step(s, ReplyModel::Class(c), now).ask
            == AskModel::RunFlow(s.active),
        s.phase is InitialFlow ==> step(s, ReplyModel::Ended(o), now).ask is Load,
        s.phase is Sleep ==> step(s, ReplyModel::Woken(wakes), now).ask is Load,
        s.phase is Apply ==> step(s, ReplyModel::Applied(r), now).effects.events == seq![
            bread_events::applied(s.wanted, r).1,
        ],
{
    watch::churn_is_no_action(wakes);
    if s.phase is Apply {
        let t = step(s, ReplyModel::Applied(r), now);
        assert(t.effects.events =~= seq![bread_events::applied(s.wanted, r).1]);
    }
}

/// The first round counts from when the daemon became ready: after its first look
/// where all was well, and else after its first flow.
pub proof fn the_first_round_counts_from_ready(
    s: DaemonModel,
    c: ClassModel,
    o: OutcomeModel,
    now: u128,
)
    ensures
        s.phase is Initial && c.health is Up ==> step(
            s,
            ReplyModel::Class(c),
            now,
        ).state.watch.tick_at == now,
        s.phase is InitialFlow ==> step(s, ReplyModel::Ended(o), now).state.watch == (WatchModel {
            tick_at: now,
            ..s.watch
        }),
{
}

} // verus!
