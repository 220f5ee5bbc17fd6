//! The interactive scan: look around, let the user pick a network, join it, and
//! keep it.

use vstd::prelude::*;

use crate::backend;
use crate::cli;
use crate::cli::C_GREEN;
use crate::config;
use crate::config::{Config, ConfigFiles, ConfigModel, NetworkDef, NetworkModel};
use crate::flow;
use crate::nm;
use crate::nm::{ScanEntry, ScanModel};
use crate::text;

verus! {

/// Which answer the scan waits for.
#[derive(Debug, Clone, Copy, PartialEq, Eq, Structural)]
pub enum Phase {
    /// The interface to scan with.
    Interface,
    Radio,
    Rescan,
    /// What is in range.
    Look,
    /// The number that the user types.
    Number,
    /// The password that the user types.
    Secret,
    Connect,
    Save,
    Finished,
}

/// What the scan asks of the outside world.
#[derive(Debug)]
pub enum Ask {
    /// The interface to use, with the preferred one.
    Interface(Option<String>),
    RadioOn,
    /// A scan with this interface.
    Rescan(String),
    /// The networks in range of this interface.
    Look(String),
    /// A number, after these lines were shown.
    Choose(Vec<String>),
    /// A password, with this prompt.
    Secret(String),
    Connect { iface: String, net: NetworkDef, wait: u32, dns: String },
    Save(ConfigFiles),
    /// The line to print at the end, or the error.
    Finish(Result<String, String>),
}

pub enum AskModel {
    Interface(Option<Seq<char>>),
    RadioOn,
    Rescan(Seq<char>),
    Look(Seq<char>),
    Choose(Seq<Seq<char>>),
    Secret(Seq<char>),
    Connect { iface: Seq<char>, net: NetworkModel, wait: u32, dns: Seq<char> },
    /// This configuration, its networks in a file of their own.
    Save(ConfigModel),
    Finish(Result<Seq<char>, Seq<char>>),
}

/// The texts of a result.
pub open spec fn texts(r: Result<String, String>) -> Result<Seq<char>, Seq<char>> {
    match r {
        Ok(s) => Ok(s@),
        Err(e) => Err(e@),
    }
}

impl View for Ask {
    type V = AskModel;

    open spec fn view(&self) -> AskModel {
        match self {
            Ask::Interface(p) => AskModel::Interface(text::opt_view(*p)),
            Ask::RadioOn => AskModel::RadioOn,
            Ask::Rescan(i) => AskModel::Rescan(i@),
            Ask::Look(i) => AskModel::Look(i@),
            Ask::Choose(lines) => AskModel::Choose(text::views(lines@)),
            Ask::Secret(prompt) => AskModel::Secret(prompt@),
            Ask::Connect { iface, net, wait, dns } => AskModel::Connect {
                iface: iface@,
                net: net@,
                wait: *wait,
                dns: dns@,
            },
            Ask::Save(f) => AskModel::Save(flow::in_files(*f)),
            Ask::Finish(r) => AskModel::Finish(texts(*r)),
        }
    }
}

impl Ask {
    /// Files to save hold no networks in the main one.
    pub open spec fn wf(&self) -> bool {
        self matches Ask::Save(f) ==> f.main@.networks == Seq::<NetworkModel>::empty()
    }
}

/// What came of it.
#[derive(Debug)]
pub enum Reply {
    Interface(Option<String>),
    Done,
    Seen(Vec<ScanEntry>),
    Typed(String),
    Connected(bool),
    Saved(Result<(), String>),
}

pub enum ReplyModel {
    Interface(Option<Seq<char>>),
    Done,
    Seen(Seq<ScanModel>),
    Typed(Seq<char>),
    Connected(bool),
    Saved(Result<(), Seq<char>>),
}

impl View for Reply {
    type V = ReplyModel;

    open spec fn view(&self) -> ReplyModel {
        match self {
            Reply::Interface(i) => ReplyModel::Interface(text::opt_view(*i)),
            Reply::Done => ReplyModel::Done,
            Reply::Seen(e) => ReplyModel::Seen(nm::scan_models(e@)),
            Reply::Typed(t) => ReplyModel::Typed(t@),
            Reply::Connected(ok) => ReplyModel::Connected(*ok),
            Reply::Saved(r) => ReplyModel::Saved(backend::result_view(*r)),
        }
    }
}

/// A scan, between two things it waits for.
#[verifier::ext_equal]
pub struct PickModel {
    pub cfg: ConfigModel,
    /// The profile to attach the network to.
    pub to: Option<Seq<char>>,
    pub iface: Seq<char>,
    /// What is in range.
    pub entries: Seq<ScanModel>,
    /// The network that was picked.
    pub ssid: Seq<char>,
    pub phase: Phase,
}

/// The next state, and what is asked then.
#[verifier::ext_equal]
pub struct StepModel {
    pub state: PickModel,
    pub ask: AskModel,
}

pub open spec fn on(s: PickModel, phase: Phase, ask: AskModel) -> StepModel {
    StepModel { state: PickModel { phase, ..s }, ask }
}

/// The scan ends.
pub open spec fn finish(s: PickModel, r: Result<Seq<char>, Seq<char>>) -> StepModel {
    on(s, Phase::Finished, AskModel::Finish(r))
}

/// The scan begins, unless the profile to attach the network to does not exist.
pub open spec fn start(cfg: ConfigModel, to: Option<Seq<char>>) -> StepModel {
    let s = PickModel {
        cfg,
        to,
        iface: Seq::empty(),
        entries: Seq::empty(),
        ssid: Seq::empty(),
        phase: Phase::Interface,
    };
    if to matches Some(name) && !cfg.profiles.contains_key(name) {
        finish(s, Err(cli::unknown_profile(to->Some_0)))
    } else {
        on(s, Phase::Interface, AskModel::Interface(cfg.settings.interface))
    }
}

/// The prompt for the password of a network.
pub open spec fn prompt(ssid: Seq<char>) -> Seq<char> {
    "Password for '"@ + ssid + "': "@
}

/// The network that was picked, with the password that was typed.
pub open spec fn picked_net(ssid: Seq<char>, typed: Seq<char>) -> NetworkModel {
    NetworkModel {
        password: if typed.len() == 0 {
            None
        } else {
            Some(typed)
        },
        ..cli::blank_network(ssid)
    }
}

/// The kind of reply that each phase waits for.
pub open spec fn fits(phase: Phase, reply: ReplyModel) -> bool {
    match phase {
        Phase::Interface => reply is Interface,
        Phase::Radio | Phase::Rescan => reply is Done,
        Phase::Look => reply is Seen,
        Phase::Number | Phase::Secret => reply is Typed,
        Phase::Connect => reply is Connected,
        Phase::Save => reply is Saved,
        Phase::Finished => false,
    }
}

/// What follows when `reply` is what the scan waited for.
pub open spec fn step(s: PickModel, reply: ReplyModel) -> StepModel {
    match (s.phase, reply) {
        (Phase::Interface, ReplyModel::Interface(found)) => match found {
            Some(iface) => on(PickModel { iface, ..s }, Phase::Radio, AskModel::RadioOn),
            None => finish(s, Err("no Wi-Fi adapter"@)),
        },
        (Phase::Radio, _) => on(s, Phase::Rescan, AskModel::Rescan(s.iface)),
        (Phase::Rescan, _) => on(s, Phase::Look, AskModel::Look(s.iface)),
        (Phase::Look, ReplyModel::Seen(entries)) => if entries.len() == 0 {
            finish(s, Err("no networks found"@))
        } else {
            on(
                PickModel { entries, ..s },
                Phase::Number,
                AskModel::Choose(cli::scan_lines(entries)),
            )
        },
        (Phase::Number, ReplyModel::Typed(typed)) => match cli::chosen(s.entries, typed) {
            Ok(ssid) => on(PickModel { ssid, ..s }, Phase::Secret, AskModel::Secret(prompt(ssid))),
            Err(e) => finish(s, Err(e)),
        },
        (Phase::Secret, ReplyModel::Typed(typed)) => on(
            s,
            Phase::Connect,
            AskModel::Connect {
                iface: s.iface,
                net: picked_net(s.ssid, typed),
                wait: s.cfg.settings.connect_wait,
                dns: s.cfg.settings.dns,
            },
        ),
        (Phase::Connect, ReplyModel::Connected(ok)) => if ok {
            let cfg = config::owned(cli::picked(s.cfg, s.ssid, s.to));
            on(PickModel { cfg, ..s }, Phase::Save, AskModel::Save(cfg))
        } else {
            finish(s, Err("failed to connect to "@ + s.ssid))
        },
        (Phase::Save, ReplyModel::Saved(r)) => match r {
            Ok(_) => finish(s, Ok(cli::painted(C_GREEN@, "connected + saved"@) + " "@ + s.ssid)),
            Err(e) => finish(s, Err(e)),
        },
        _ => finish(s, Err(Seq::empty())),
    }
}

/// A scan, between two things it waits for.
#[derive(Debug)]
pub struct Scan {
    cfg: Config,
    to: Option<String>,
    iface: String,
    entries: Vec<ScanEntry>,
    ssid: String,
    phase: Phase,
}

impl View for Scan {
    type V = PickModel;

    closed spec fn view(&self) -> PickModel {
        PickModel {
            cfg: self.cfg@,
            to: text::opt_view(self.to),
            iface: self.iface@,
            entries: nm::scan_models(self.entries@),
            ssid: self.ssid@,
            phase: self.phase,
        }
    }
}

impl Scan {
    /// The profiles are in order.
    pub closed spec fn wf(&self) -> bool {
        self.cfg.wf()
    }

    /// Begins a scan whose network is to be attached to a profile, where one is
    /// given. One that does not exist is refused before anything is done.
    pub fn new(cfg: Config, to: Option<String>) -> (r: (Scan, Ask))
        requires
            cfg.wf(),
        ensures
            r.0.wf(),
            r.1.wf(),
            (StepModel { state: r.0@, ask: r.1@ }) == start(cfg@, text::opt_view(to)),
    {
        let ghost want = start(cfg@, text::opt_view(to));
        let refused = cli::check_target(&cfg, &to);
        let preferred = cfg.settings.interface.clone();
        let mut s = Scan {
            cfg,
            to,
            iface: String::new(),
            entries: Vec::new(),
            ssid: String::new(),
            phase: Phase::Interface,
        };
        let ask = match refused {
            Ok(_) => Ask::Interface(preferred),
            Err(e) => s.finish(Err(e)),
        };
        assert(s@ =~= want.state);
        (s, ask)
    }

    fn finish(&mut self, r: Result<String, String>) -> (ask: Ask)
        ensures
            final(self).wf() == old(self).wf(),
            ask.wf(),
            (StepModel { state: final(self)@, ask: ask@ }) == finish(old(self)@, texts(r)),
    {
        self.phase = Phase::Finished;
        Ask::Finish(r)
    }

    fn fail(&mut self, e: &str) -> (ask: Ask)
        ensures
            final(self).wf() == old(self).wf(),
            ask.wf(),
            (StepModel { state: final(self)@, ask: ask@ }) == finish(old(self)@, Err(e@)),
    {
        self.finish(Err(e.to_string()))
    }

    fn take_typed(&mut self, typed: String) -> (ask: Ask)
        requires
            old(self).wf(),
            old(self)@.phase is Number || old(self)@.phase is Secret,
        ensures
            final(self).wf(),
            ask.wf(),
            (StepModel { state: final(self)@, ask: ask@ }) == step(
                old(self)@,
                ReplyModel::Typed(typed@),
            ),
    {
        if self.phase == Phase::Number {
            match cli::choose_network(&self.entries, typed.as_str()) {
                Ok(ssid) => {
                    let question = "Password for '".to_string().concat(ssid.as_str()).concat("': ");
                    self.ssid = ssid;
                    self.phase = Phase::Secret;
                    Ask::Secret(question)
                },
                Err(e) => self.finish(Err(e)),
            }
        } else {
            self.phase = Phase::Connect;
            Ask::Connect {
                iface: self.iface.clone(),
                net: cli::picked_network(self.ssid.as_str(), typed),
                wait: self.cfg.settings.connect_wait,
                dns: self.cfg.settings.dns.clone(),
            }
        }
    }

    fn take_connected(&mut self, ok: bool) -> (ask: Ask)
        requires
            old(self).wf(),
            old(self)@.phase is Connect,
        ensures
            final(self).wf(),
            ask.wf(),
            (StepModel { state: final(self)@, ask: ask@ }) == step(
                old(self)@,
                ReplyModel::Connected(ok),
            ),
    {
        let ghost want = step(self@, ReplyModel::Connected(ok));
        if !ok {
            let e = "failed to connect to ".to_string().concat(self.ssid.as_str());
            return self.finish(Err(e));
        }
        cli::keep_picked(&mut self.cfg, self.ssid.as_str(), &self.to);
        let files = self.cfg.save();
        self.phase = Phase::Save;
        assert(flow::in_files(files) =~= self.cfg@);
        assert(self@ =~= want.state);
        Ask::Save(files)
    }

    /// Takes what came of the last question, and gives the next one.
    pub fn next(&mut self, reply: Reply) -> (ask: Ask)
        requires
            old(self).wf(),
            fits(old(self)@.phase, reply@),
        ensures
            final(self).wf(),
            ask.wf(),
            (StepModel { state: final(self)@, ask: ask@ }) == step(old(self)@, reply@),
    {
        match reply {
            Reply::Interface(found) => match found {
                Some(iface) => {
                    self.iface = iface;
                    self.phase = Phase::Radio;
                    Ask::RadioOn
                },
                None => self.fail("no Wi-Fi adapter"),
            },
            Reply::Done => {
                if self.phase == Phase::Radio {
                    self.phase = Phase::Rescan;
                    Ask::Rescan(self.iface.clone())
                } else {
                    self.phase = Phase::Look;
                    Ask::Look(self.iface.clone())
                }
            },
            Reply::Seen(entries) => {
                if entries.len() == 0 {
                    self.fail("no networks found")
                } else {
                    let lines = cli::show_scan(&entries);
                    self.entries = entries;
                    self.phase = Phase::Number;
                    Ask::Choose(lines)
                }
            },
            Reply::Typed(typed) => self.take_typed(typed),
            Reply::Connected(ok) => self.take_connected(ok),
            Reply::Saved(r) => match r {
                Ok(_) => {
                    let line = cli::paint(C_GREEN, "connected + saved").concat(" ").concat(
                        self.ssid.as_str(),
                    );
                    self.finish(Ok(line))
                },
                Err(e) => self.finish(Err(e)),
            },
        }
    }
}

// ---- What holds of every scan --------------------------------------------

/// Where a scan stands after the first `k` of these replies.
pub open spec fn after(
    cfg: ConfigModel,
    to: Option<Seq<char>>,
    replies: Seq<ReplyModel>,
    k: nat,
) -> StepModel
    decreases k,
{
    if k == 0 {
        start(cfg, to)
    } else {
        step(after(cfg, to, replies, (k - 1) as nat).state, replies[k - 1])
    }
}

/// The replies are what a scan waited for, one by one.
pub open spec fn answers(
    cfg: ConfigModel,
    to: Option<Seq<char>>,
    replies: Seq<ReplyModel>,
) -> bool {
    forall|k: nat|
        k < replies.len() ==> fits(
            #[trigger] after(cfg, to, replies, k).state.phase,
            replies[k as int],
        )
}

/// The kind of question that each phase has asked.
pub open spec fn asks(phase: Phase, ask: AskModel) -> bool {
    match phase {
        Phase::Interface => ask is Interface,
        Phase::Radio => ask is RadioOn,
        Phase::Rescan => ask is Rescan,
        Phase::Look => ask is Look,
        Phase::Number => ask is Choose,
        Phase::Secret => ask is Secret,
        Phase::Connect => ask is Connect,
        Phase::Save => ask is Save,
        Phase::Finished => ask is Finish,
    }
}

/// A profile that does not exist is refused before anything is done: nothing
/// outside is asked, and the scan takes no reply.
pub proof fn an_unknown_profile_is_refused_first(
    cfg: ConfigModel,
    name: Seq<char>,
    replies: Seq<ReplyModel>,
)
    requires
        !cfg.profiles.contains_key(name),
        answers(cfg, Some(name), replies),
    ensures
        start(cfg, Some(name)).ask == AskModel::Finish(Err(cli::unknown_profile(name))),
        replies.len() == 0,
{
    if replies.len() > 0 {
        assert(fits(after(cfg, Some(name), replies, 0).state.phase, replies[0]));
    }
}

proof fn lemma_asks(cfg: ConfigModel, to: Option<Seq<char>>, replies: Seq<ReplyModel>, k: nat)
    requires
        k <= replies.len(),
        answers(cfg, to, replies),
    ensures
        ({
            let t = after(cfg, to, replies, k);
            &&& asks(t.state.phase, t.ask)
            &&& t.state.to == to
            &&& !(t.state.phase is Save || t.state.phase is Finished) ==> t.state.cfg == cfg
            &&& t.ask matches AskModel::Connect { net, .. } ==> net.ssid == t.state.ssid
        }),
    decreases k,
{
    if k > 0 {
        lemma_asks(cfg, to, replies, (k - 1) as nat);
        assert(fits(after(cfg, to, replies, (k - 1) as nat).state.phase, replies[k - 1]));
    }
}

/// Nothing is saved unless the connect succeeded: a save follows a connect that
/// worked, and what is saved is the configuration with that network in it,
/// without its password.
pub proof fn only_a_joined_network_is_saved(
    cfg: ConfigModel,
    to: Option<Seq<char>>,
    replies: Seq<ReplyModel>,
    k: nat,
)
    requires
        k <= replies.len(),
        answers(cfg, to, replies),
        after(cfg, to, replies, k).ask is Save,
    ensures
        k > 0,
        replies[k - 1] == ReplyModel::Connected(true),
        after(cfg, to, replies, (k - 1) as nat).ask matches AskModel::Connect { net, .. }
            && after(cfg, to, replies, k).ask == AskModel::Save(
            config::owned(cli::picked(cfg, net.ssid, to)),
        ),
{
    if k > 0 {
        lemma_asks(cfg, to, replies, (k - 1) as nat);
        assert(fits(after(cfg, to, replies, (k - 1) as nat).state.phase, replies[k - 1]));
    }
}

/// A scan succeeds only when its last step was a save that worked.
pub proof fn a_scan_succeeds_only_when_saved(
    cfg: ConfigModel,
    to: Option<Seq<char>>,
    replies: Seq<ReplyModel>,
    k: nat,
)
    requires
        k <= replies.len(),
        answers(cfg, to, replies),
        after(cfg, to, replies, k).ask matches AskModel::Finish(Ok(_)),
    ensures
        k > 0,
        after(cfg, to, replies, (k - 1) as nat).ask is Save,
        replies[k - 1] matches ReplyModel::Saved(Ok(_)),
{
    if k > 0 {
        lemma_asks(cfg, to, replies, (k - 1) as nat);
        assert(fits(after(cfg, to, replies, (k - 1) as nat).state.phase, replies[k - 1]));
    }
}

/// How a network is picked: with the preferred interface, the radio on, a fresh
/// scan, a number and a password.
pub proof fn a_pick_goes_step_by_step(
    s: PickModel,
    iface: Seq<char>,
    entries: Seq<ScanModel>,
    n: nat,
    typed: Seq<char>,
)
    ensures
        s.phase is Interface ==> {
            &&& step(s, ReplyModel::Interface(Some(iface))).ask is RadioOn
            &&& step(s, ReplyModel::Interface(Some(iface))).state.iface == iface
            &&& step(s, ReplyModel::Interface(None)).ask matches AskModel::Finish(r) && r is Err
        },
        s.phase is Radio ==> step(s, ReplyModel::Done).ask == AskModel::Rescan(s.iface),
        s.phase is Rescan ==> step(s, ReplyModel::Done).ask == AskModel::Look(s.iface),
        s.phase is Look && entries.len() > 0 ==> {
            let t = step(s, ReplyModel::Seen(entries));
            &&& t.state.entries == entries
            &&& t.ask matches AskModel::Choose(lines) && lines.len() == entries.len()
        },
        s.phase is Look && entries.len() == 0 ==> (step(
            s,
            ReplyModel::Seen(entries),
        ).ask matches AskModel::Finish(r) && r is Err),
        s.phase is Number && 1 <= n <= s.entries.len() && s.entries[n - 1].ssid.len() > 0 ==> {
            let t = step(s, ReplyModel::Typed(text::decimal(n)));
            t.ask is Secret && t.state.ssid == s.entries[n - 1].ssid
        },
        s.phase is Number && (n == 0 || n > s.entries.len()) ==> (step(
            s,
            ReplyModel::Typed(text::decimal(n)),
        ).ask matches AskModel::Finish(r) && r is Err),
        s.phase is Secret ==> (step(s, ReplyModel::Typed(typed)).ask matches AskModel::Connect {
            iface: i,
            net,
            wait,
            dns,
        } && i == s.iface && net.ssid == s.ssid && wait == s.cfg.settings.connect_wait && dns
            == s.cfg.settings.dns && (typed.len() > 0 ==> net.password == Some(typed)) && (
        typed.len() == 0 ==> net.password is None) && !net.hidden && net.eap is None && net.dns
            is None),
{
    cli::entries_are_chosen_by_number(s.entries, n);
}

/// A network that was joined is saved, and the pick ends well once it is; one that
/// was not ends it with an error.
pub proof fn a_pick_ends_as_it_went(s: PickModel, e: Seq<char>)
    ensures
        s.phase is Connect ==> {
            let t = step(s, ReplyModel::Connected(true));
            &&& t.ask == AskModel::Save(t.state.cfg)
            &&& t.state.cfg == config::owned(cli::picked(s.cfg, s.ssid, s.to))
            &&& step(s, ReplyModel::Connected(false)).ask matches AskModel::Finish(r) && r is Err
        },
        s.phase is Save ==> {
            &&& step(s, ReplyModel::Saved(Ok(()))).ask matches AskModel::Finish(r) && r is Ok
            &&& step(s, ReplyModel::Saved(Err(e))).ask == AskModel::Finish(Err(e))
        },
{
}

/// A pick for a profile that is there, or for none, starts with the preferred
/// interface and the configuration as it is.
pub proof fn a_pick_starts_with_the_preferred_interface(
    cfg: ConfigModel,
    to: Option<Seq<char>>,
)
    requires
        to is Some ==> cfg.profiles.contains_key(to->Some_0),
    ensures
        start(cfg, to).ask == AskModel::Interface(cfg.settings.interface),
        start(cfg, to).state.cfg == cfg,
        start(cfg, to).state.to == to,
        start(cfg, to).state.phase is Interface,
{
}

} // verus!
