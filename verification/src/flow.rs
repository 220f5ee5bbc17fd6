//! The connect state machine: which networks are dialed for a profile, in which
//! order, and what is kept of it.

use vstd::prelude::*;

use crate::backend;
use crate::backend::Backend;
use crate::config;
use crate::config::{Config, ConfigFiles, ConfigModel, NetworkDef, NetworkModel, Profile, ProfileModel};
use crate::notify;
use crate::notify::Urgency;
use crate::status::Connectivity;
use crate::tailscale;
use crate::tailscale::{HealthModel, TsHealth};
use crate::text;

verus! {

broadcast use crate::text::lemma_views_push;

// ---- Outcomes ------------------------------------------------------------

#[derive(Debug, PartialEq, Eq)]
#[allow(inconsistent_fields)]
pub enum Outcome {
    /// Connected to `ssid`; `note` carries any caveat (e.g. on bootstrap only).
    Connected { ssid: String, note: Option<String> },
    /// Tailscale required but unhealthy; left on `ssid` (bootstrap if available).
    TailscaleError { ssid: Option<String>, health: TsHealth },
    NoInterface,
    NoNetworks,
    UnknownProfile(String),
}

#[allow(inconsistent_fields)]
pub enum OutcomeModel {
    Connected { ssid: Seq<char>, note: Option<Seq<char>> },
    TailscaleError { ssid: Option<Seq<char>>, health: HealthModel },
    NoInterface,
    NoNetworks,
    UnknownProfile(Seq<char>),
}

impl View for Outcome {
    type V = OutcomeModel;

    open spec fn view(&self) -> OutcomeModel {
        match self {
            Outcome::Connected { ssid, note } => OutcomeModel::Connected {
                ssid: ssid@,
                note: text::opt_view(*note),
            },
            Outcome::TailscaleError { ssid, health } => OutcomeModel::TailscaleError {
                ssid: text::opt_view(*ssid),
                health: health@,
            },
            Outcome::NoInterface => OutcomeModel::NoInterface,
            Outcome::NoNetworks => OutcomeModel::NoNetworks,
            Outcome::UnknownProfile(p) => OutcomeModel::UnknownProfile(p@),
        }
    }
}

impl Outcome {
    pub fn ok(&self) -> (r: bool)
        ensures
            r == (self@ is Connected),
    {
        match self {
            Outcome::Connected { .. } => true,
            _ => false,
        }
    }
}

/// A health the way the log shows it.
pub open spec fn health_text(h: HealthModel) -> Seq<char> {
    match h {
        HealthModel::Error(e) => "Error("@ + text::quoted(e) + ")"@,
        _ => tailscale::state_name(h),
    }
}

/// An outcome the way the log shows it.
pub open spec fn outcome_text(o: OutcomeModel) -> Seq<char> {
    match o {
        OutcomeModel::Connected { ssid, note } => "Connected { ssid: "@ + text::quoted(ssid)
            + ", note: "@ + text::quoted_option(note) + " }"@,
        OutcomeModel::TailscaleError { ssid, health } => "TailscaleError { ssid: "@
            + text::quoted_option(ssid) + ", health: "@ + health_text(health) + " }"@,
        OutcomeModel::NoInterface => "NoInterface"@,
        OutcomeModel::NoNetworks => "NoNetworks"@,
        OutcomeModel::UnknownProfile(p) => "UnknownProfile("@ + text::quoted(p) + ")"@,
    }
}

fn show_health(h: &TsHealth) -> (r: String)
    ensures
        r@ == health_text(h@),
{
    match h {
        TsHealth::Error(e) => "Error(".to_string().concat(
            text::quote(e.as_str()).as_str(),
        ).concat(")"),
        _ => h.state_str().to_string(),
    }
}

/// An outcome the way the log shows it.
pub fn show_outcome(o: &Outcome) -> (r: String)
    ensures
        r@ == outcome_text(o@),
{
    match o {
        Outcome::Connected { ssid, note } => "Connected { ssid: ".to_string().concat(
            text::quote(ssid.as_str()).as_str(),
        ).concat(", note: ").concat(text::quote_option(note).as_str()).concat(" }"),
        Outcome::TailscaleError { ssid, health } => "TailscaleError { ssid: ".to_string().concat(
            text::quote_option(ssid).as_str(),
        ).concat(", health: ").concat(show_health(health).as_str()).concat(" }"),
        Outcome::NoInterface => "NoInterface".to_string(),
        Outcome::NoNetworks => "NoNetworks".to_string(),
        Outcome::UnknownProfile(p) => "UnknownProfile(".to_string().concat(
            text::quote(p.as_str()).as_str(),
        ).concat(")"),
    }
}

// ---- Candidates ----------------------------------------------------------

/// The networks behind a list of SSIDs, each once and in order; SSIDs that no
/// network has are passed over.
pub open spec fn listed(nets: Seq<NetworkModel>, names: Seq<Seq<char>>) -> Seq<NetworkModel>
    decreases names.len(),
{
    if names.len() == 0 {
        Seq::empty()
    } else {
        let before = listed(nets, names.drop_last());
        match config::network_in(nets, names.last()) {
            Some(n) => if config::ssids(before).contains(n.ssid) {
                before
            } else {
                before.push(n)
            },
            None => before,
        }
    }
}

/// The networks that a profile may end up on: those it lists, and then, where it
/// asks for that, every other known one.
pub open spec fn candidates(nets: Seq<NetworkModel>, p: ProfileModel) -> Seq<NetworkModel> {
    let first = listed(nets, p.networks);
    if p.include_all_known {
        config::merged(first, nets)
    } else {
        first
    }
}

fn push_new(out: &mut Vec<NetworkDef>, def: &NetworkDef)
    ensures
        config::network_models(final(out)@) == (if config::ssids(
            config::network_models(old(out)@),
        ).contains(def.ssid@) {
            config::network_models(old(out)@)
        } else {
            config::network_models(old(out)@).push(def@)
        }),
{
    if config::find_network(out, def.ssid.as_str()) == out.len() {
        let d = def.clone();
        assert(config::network_models(out@.push(d)) =~= config::network_models(out@).push(d@));
        out.push(d);
    }
}

/// Resolve a profile's priority list to concrete network definitions.
pub fn resolve_candidates(cfg: &Config, p: &Profile) -> (r: Vec<NetworkDef>)
    ensures
        config::network_models(r@) == candidates(cfg@.networks, p@),
{
    let mut out: Vec<NetworkDef> = Vec::new();
    let ghost nets = cfg@.networks;
    let ghost names = text::views(p.networks@);
    let mut i: usize = 0;
    assert(config::network_models(out@) =~= Seq::<NetworkModel>::empty());
    assert(names.take(0).len() == 0);
    while i < p.networks.len()
        invariant
            i <= p.networks@.len(),
            nets == cfg@.networks,
            names == text::views(p.networks@),
            config::network_models(out@) == listed(nets, names.take(i as int)),
        decreases p.networks@.len() - i,
    {
        assert(names.take(i + 1).drop_last() =~= names.take(i as int));
        assert(names.take(i + 1).last() == p.networks@[i as int]@);
        match cfg.network(p.networks[i].as_str()) {
            Some(def) => push_new(&mut out, def),
            None => {},
        }
        i += 1;
    }
    assert(names.take(i as int) =~= names);
    if p.include_all_known {
        let ghost first = config::network_models(out@);
        let mut j: usize = 0;
        assert(nets.take(0).len() == 0);
        while j < cfg.networks.len()
            invariant
                j <= cfg.networks@.len(),
                nets == cfg@.networks,
                config::network_models(out@) == config::merged(first, nets.take(j as int)),
            decreases cfg.networks@.len() - j,
        {
            assert(nets.take(j + 1).drop_last() =~= nets.take(j as int));
            assert(nets.take(j + 1).last() == cfg.networks@[j as int]@);
            push_new(&mut out, &cfg.networks[j]);
            j += 1;
        }
        assert(nets.take(j as int) =~= nets);
    }
    out
}

/// No two networks have the same SSID.
pub open spec fn distinct(nets: Seq<NetworkModel>) -> bool {
    config::ssids(nets).no_duplicates()
}

/// Each of `some` is the first of `nets` with its SSID.
pub open spec fn known(nets: Seq<NetworkModel>, some: Seq<NetworkModel>) -> bool {
    forall|i: int|
        0 <= i < some.len() ==> config::network_in(nets, (#[trigger] some[i]).ssid) == Some(some[i])
}

proof fn lemma_push_distinct(before: Seq<NetworkModel>, n: NetworkModel)
    requires
        distinct(before),
        !config::ssids(before).contains(n.ssid),
    ensures
        distinct(before.push(n)),
{
    let s0 = config::ssids(before);
    let s1 = config::ssids(before.push(n));
    assert(s1 =~= s0.push(n.ssid));
    assert forall|i: int, j: int| 0 <= i < s1.len() && 0 <= j < s1.len() && i != j implies s1[i]
        != s1[j] by {
        if i < s0.len() {
            assert(s0.contains(s0[i]));
        }
        if j < s0.len() {
            assert(s0.contains(s0[j]));
        }
    }
}

proof fn lemma_listed(nets: Seq<NetworkModel>, names: Seq<Seq<char>>)
    ensures
        distinct(listed(nets, names)),
        known(nets, listed(nets, names)),
    decreases names.len(),
{
    if names.len() > 0 {
        lemma_listed(nets, names.drop_last());
        let before = listed(nets, names.drop_last());
        match config::network_in(nets, names.last()) {
            Some(n) => {
                text::lemma_first_index(config::ssids(nets), names.last());
                assert(n.ssid == names.last());
                if !config::ssids(before).contains(n.ssid) {
                    lemma_push_distinct(before, n);
                }
            },
            None => {},
        }
    }
}

proof fn lemma_merged_known(nets: Seq<NetworkModel>, first: Seq<NetworkModel>, k: int)
    requires
        0 <= k <= nets.len(),
        distinct(first),
        known(nets, first),
    ensures
        distinct(config::merged(first, nets.take(k))),
        known(nets, config::merged(first, nets.take(k))),
        forall|i: int|
            0 <= i < k ==> config::ssids(config::merged(first, nets.take(k))).contains(
                (#[trigger] nets[i]).ssid,
            ),
    decreases k,
{
    if k > 0 {
        lemma_merged_known(nets, first, k - 1);
        let m = config::merged(first, nets.take(k - 1));
        let n = nets[k - 1];
        let out = config::merged(first, nets.take(k));
        assert(nets.take(k).drop_last() =~= nets.take(k - 1));
        assert(nets.take(k).last() == n);
        if !config::ssids(m).contains(n.ssid) {
            lemma_push_distinct(m, n);
            // None before it has its SSID, for that one would have been added.
            assert forall|j: int| 0 <= j < k - 1 implies config::ssids(nets)[j] != n.ssid by {
                assert(config::ssids(m).contains(nets[j].ssid));
            }
            assert(config::ssids(nets)[k - 1] == n.ssid);
            text::lemma_first_index_is(config::ssids(nets), n.ssid, k - 1);
            assert(config::ssids(out) =~= config::ssids(m).push(n.ssid));
            assert forall|i: int| 0 <= i < k implies config::ssids(out).contains(
                (#[trigger] nets[i]).ssid,
            ) by {
                if i < k - 1 {
                    let x = config::ssids(m).index_of(nets[i].ssid);
                    assert(config::ssids(out)[x] == nets[i].ssid);
                } else {
                    assert(config::ssids(out)[m.len() as int] == n.ssid);
                }
            }
        }
    }
}

/// Candidates are saved networks, and no SSID occurs twice among them. A
/// profile that asks for every known network gets one for each saved SSID.
pub proof fn candidates_are_known_and_distinct(nets: Seq<NetworkModel>, p: ProfileModel)
    ensures
        distinct(candidates(nets, p)),
        known(nets, candidates(nets, p)),
        p.include_all_known ==> forall|i: int|
            0 <= i < nets.len() ==> config::ssids(candidates(nets, p)).contains(
                (#[trigger] nets[i]).ssid,
            ),
{
    lemma_listed(nets, p.networks);
    lemma_merged_known(nets, listed(nets, p.networks), nets.len() as int);
    assert(nets.take(nets.len() as int) =~= nets);
}

// ---- The order of dialing ------------------------------------------------

/// The signal under which an SSID is seen.
pub open spec fn signal_of(signals: Seq<(Seq<char>, i32)>, ssid: Seq<char>) -> Option<i32>
    decreases signals.len(),
{
    if signals.len() == 0 {
        None
    } else if signals[0].0 == ssid {
        Some(signals[0].1)
    } else {
        signal_of(signals.drop_first(), ssid)
    }
}

/// The signal under which an SSID is seen.
pub fn find_signal(signals: &Vec<(String, i32)>, ssid: &str) -> (r: Option<i32>)
    ensures
        r == signal_of(backend::signal_models(signals@), ssid@),
{
    let ghost all = backend::signal_models(signals@);
    let mut i: usize = 0;
    assert(all.skip(0) =~= all);
    while i < signals.len()
        invariant
            i <= signals@.len(),
            all == backend::signal_models(signals@),
            signal_of(all, ssid@) == signal_of(all.skip(i as int), ssid@),
        decreases signals@.len() - i,
    {
        assert(all.skip(i as int)[0] == (signals@[i as int].0@, signals@[i as int].1));
        if text::same(signals[i].0.as_str(), ssid) {
            return Some(signals[i].1);
        }
        assert(all.skip(i as int).drop_first() =~= all.skip(i + 1));
        i += 1;
    }
    None
}

/// A network and the signal under which it is seen.
pub type Seen = (NetworkModel, i32);

/// The first position of a weaker signal, or the length.
pub open spec fn first_weaker(seen: Seq<Seen>, signal: i32) -> nat
    decreases seen.len(),
{
    if seen.len() == 0 {
        0
    } else if seen[0].1 < signal {
        0
    } else {
        first_weaker(seen.drop_first(), signal) + 1
    }
}

/// The candidates that are seen, the strongest first; among equals the order of
/// the candidates stays.
pub open spec fn by_signal(cands: Seq<NetworkModel>, signals: Seq<(Seq<char>, i32)>) -> Seq<Seen>
    decreases cands.len(),
{
    if cands.len() == 0 {
        Seq::empty()
    } else {
        let before = by_signal(cands.drop_last(), signals);
        match signal_of(signals, cands.last().ssid) {
            Some(s) => before.insert(first_weaker(before, s) as int, (cands.last(), s)),
            None => before,
        }
    }
}

/// The hidden candidates that are not seen, in order.
pub open spec fn unseen_hidden(
    cands: Seq<NetworkModel>,
    signals: Seq<(Seq<char>, i32)>,
) -> Seq<NetworkModel>
    decreases cands.len(),
{
    if cands.len() == 0 {
        Seq::empty()
    } else {
        let before = unseen_hidden(cands.drop_last(), signals);
        if cands.last().hidden && signal_of(signals, cands.last().ssid) is None {
            before.push(cands.last())
        } else {
            before
        }
    }
}

/// A network to dial, and whether it is dialed unseen.
pub type Turn = (NetworkModel, bool);

/// The networks to dial, in order: those that are seen, the strongest first, and
/// then the hidden ones that are not seen.
pub open spec fn dial_order(cands: Seq<NetworkModel>, signals: Seq<(Seq<char>, i32)>) -> Seq<Turn> {
    by_signal(cands, signals).map_values(|e: Seen| (e.0, false)) + unseen_hidden(
        cands,
        signals,
    ).map_values(|n: NetworkModel| (n, true))
}

proof fn lemma_first_weaker(seen: Seq<Seen>, signal: i32)
    ensures
        first_weaker(seen, signal) <= seen.len(),
        forall|i: int| 0 <= i < first_weaker(seen, signal) ==> (#[trigger] seen[i]).1 >= signal,
        first_weaker(seen, signal) < seen.len() ==> seen[first_weaker(seen, signal) as int].1
            < signal,
    decreases seen.len(),
{
    if seen.len() > 0 && seen[0].1 >= signal {
        let rest = seen.drop_first();
        lemma_first_weaker(rest, signal);
        assert forall|i: int| 0 <= i < first_weaker(seen, signal) implies (#[trigger] seen[i]).1
            >= signal by {
            if i > 0 {
                assert(rest[i - 1] == seen[i]);
            }
        }
        let k = first_weaker(rest, signal) as int;
        if k < rest.len() {
            assert(rest[k] == seen[k + 1]);
        }
    }
}

/// Stronger signals come first.
pub open spec fn strongest_first(seen: Seq<Seen>) -> bool {
    forall|i: int, j: int| 0 <= i < j < seen.len() ==> (#[trigger] seen[i]).1 >= (#[trigger] seen[j]).1
}

proof fn lemma_insert_by_signal(seen: Seq<Seen>, n: NetworkModel, signal: i32)
    requires
        strongest_first(seen),
    ensures
        strongest_first(seen.insert(first_weaker(seen, signal) as int, (n, signal))),
{
    lemma_first_weaker(seen, signal);
    let k = first_weaker(seen, signal) as int;
    let out = seen.insert(k, (n, signal));
    assert forall|i: int, j: int| 0 <= i < j < out.len() implies (#[trigger] out[i]).1 >= (
    #[trigger] out[j]).1 by {
        if j < k {
            assert(out[i] == seen[i] && out[j] == seen[j]);
        } else if j == k {
            assert(out[i] == seen[i]);
        } else {
            assert(out[j] == seen[j - 1]);
            if i < k {
                assert(out[i] == seen[i]);
            } else if i == k {
                if j - 1 > k {
                    assert(seen[k].1 >= seen[j - 1].1);
                }
            } else {
                assert(out[i] == seen[i - 1]);
            }
        }
    }
}

/// The networks that are dialed because they are seen are the candidates that
/// are seen, each under its signal, and a stronger signal comes first.
pub proof fn seen_networks_go_by_signal(
    cands: Seq<NetworkModel>,
    signals: Seq<(Seq<char>, i32)>,
)
    ensures
        strongest_first(by_signal(cands, signals)),
        forall|e: Seen| #[trigger]
            by_signal(cands, signals).contains(e) <==> cands.contains(e.0) && signal_of(
                signals,
                e.0.ssid,
            ) == Some(e.1),
    decreases cands.len(),
{
    let out = by_signal(cands, signals);
    if cands.len() > 0 {
        let rest = cands.drop_last();
        seen_networks_go_by_signal(rest, signals);
        let before = by_signal(rest, signals);
        let n = cands.last();
        assert forall|m: NetworkModel| #[trigger] cands.contains(m) <==> rest.contains(m) || m
            == n by {
            if cands.contains(m) {
                let i = cands.index_of(m);
                if i < rest.len() {
                    assert(rest[i] == m);
                }
            }
            if rest.contains(m) {
                let i = rest.index_of(m);
                assert(cands[i] == m);
            }
            assert(cands[cands.len() - 1] == n);
        }
        match signal_of(signals, n.ssid) {
            Some(s) => {
                lemma_first_weaker(before, s);
                lemma_insert_by_signal(before, n, s);
                let k = first_weaker(before, s) as int;
                assert forall|e: Seen| #[trigger] out.contains(e) <==> cands.contains(e.0)
                    && signal_of(signals, e.0.ssid) == Some(e.1) by {
                    if out.contains(e) {
                        let i = out.index_of(e);
                        if i < k {
                            assert(before[i] == e);
                            assert(before.contains(e));
                        } else if i > k {
                            assert(before[i - 1] == e);
                            assert(before.contains(e));
                        }
                    }
                    if cands.contains(e.0) && signal_of(signals, e.0.ssid) == Some(e.1) {
                        if rest.contains(e.0) {
                            assert(before.contains(e));
                            let i = before.index_of(e);
                            if i < k {
                                assert(out[i] == e);
                            } else {
                                assert(out[i + 1] == e);
                            }
                        } else {
                            assert(out[k] == e);
                        }
                    }
                }
            },
            None => {
                assert forall|e: Seen| #[trigger] out.contains(e) <==> cands.contains(e.0)
                    && signal_of(signals, e.0.ssid) == Some(e.1) by {
                    assert(before.contains(e) <==> rest.contains(e.0) && signal_of(
                        signals,
                        e.0.ssid,
                    ) == Some(e.1));
                }
            },
        }
    }
}

/// Of two candidates that are seen equally well, the one that comes first among
/// the candidates is dialed first.
pub proof fn ties_keep_the_order(
    cands: Seq<NetworkModel>,
    signals: Seq<(Seq<char>, i32)>,
    i: int,
    j: int,
    signal: i32,
)
    requires
        0 <= i < j < cands.len(),
        signal_of(signals, cands[i].ssid) == Some(signal),
        signal_of(signals, cands[j].ssid) == Some(signal),
    ensures
        exists|p: int, q: int|
            0 <= p < q < by_signal(cands, signals).len() && #[trigger] by_signal(cands, signals)[p]
                == (cands[i], signal) && #[trigger] by_signal(cands, signals)[q] == (
                cands[j],
                signal,
            ),
    decreases cands.len(),
{
    let rest = cands.drop_last();
    let before = by_signal(rest, signals);
    let out = by_signal(cands, signals);
    let last = cands.last();
    seen_networks_go_by_signal(rest, signals);
    if j == cands.len() - 1 {
        lemma_first_weaker(before, signal);
        let k = first_weaker(before, signal) as int;
        assert(rest[i] == cands[i]);
        assert(before.contains((cands[i], signal)));
        let p = before.index_of((cands[i], signal));
        assert(p < k) by {
            if k <= p {
                assert(before[k].1 >= before[p].1);
            }
        }
        assert(out[p] == (cands[i], signal));
        assert(out[k] == (cands[j], signal));
    } else {
        ties_keep_the_order(rest, signals, i, j, signal);
        let (p, q) = choose|p: int, q: int|
            0 <= p < q < by_signal(rest, signals).len() && #[trigger] by_signal(rest, signals)[p]
                == (rest[i], signal) && #[trigger] by_signal(rest, signals)[q] == (
                rest[j],
                signal,
            );
        match signal_of(signals, last.ssid) {
            Some(s) => {
                lemma_first_weaker(before, s);
                let k = first_weaker(before, s) as int;
                let p2 = if p < k {
                    p
                } else {
                    p + 1
                };
                let q2 = if q < k {
                    q
                } else {
                    q + 1
                };
                assert(out[p2] == before[p]);
                assert(out[q2] == before[q]);
            },
            None => {
                assert(out[p] == before[p]);
                assert(out[q] == before[q]);
            },
        }
    }
}

proof fn lemma_unseen_hidden(cands: Seq<NetworkModel>, signals: Seq<(Seq<char>, i32)>)
    ensures
        forall|n: NetworkModel| #[trigger]
            unseen_hidden(cands, signals).contains(n) <==> cands.contains(n) && n.hidden
                && signal_of(signals, n.ssid) is None,
    decreases cands.len(),
{
    let out = unseen_hidden(cands, signals);
    if cands.len() > 0 {
        let rest = cands.drop_last();
        lemma_unseen_hidden(rest, signals);
        let before = unseen_hidden(rest, signals);
        let last = cands.last();
        assert forall|n: NetworkModel| #[trigger] out.contains(n) <==> cands.contains(n) && n.hidden
            && signal_of(signals, n.ssid) is None by {
            if out.contains(n) {
                let i = out.index_of(n);
                if i < before.len() {
                    assert(before[i] == n);
                    assert(before.contains(n));
                    let j = rest.index_of(n);
                    assert(cands[j] == n);
                } else {
                    assert(cands[cands.len() - 1] == n);
                }
            }
            if cands.contains(n) && n.hidden && signal_of(signals, n.ssid) is None {
                let j = cands.index_of(n);
                if j < rest.len() {
                    assert(rest[j] == n);
                    assert(before.contains(n));
                    let i = before.index_of(n);
                    assert(out[i] == n);
                } else {
                    assert(out[out.len() - 1] == n);
                }
            }
        }
    }
}

/// Only candidates are dialed; one that is neither seen nor hidden is not.
pub proof fn only_reachable_candidates_are_dialed(
    cands: Seq<NetworkModel>,
    signals: Seq<(Seq<char>, i32)>,
    turn: Turn,
)
    ensures
        dial_order(cands, signals).contains(turn) <==> cands.contains(turn.0) && (if turn.1 {
            turn.0.hidden && signal_of(signals, turn.0.ssid) is None
        } else {
            signal_of(signals, turn.0.ssid) is Some
        }),
{
    seen_networks_go_by_signal(cands, signals);
    lemma_unseen_hidden(cands, signals);
    let seen = by_signal(cands, signals);
    let hidden = unseen_hidden(cands, signals);
    let order = dial_order(cands, signals);
    if order.contains(turn) {
        let i = order.index_of(turn);
        if i < seen.len() {
            assert(order[i] == (seen[i].0, false));
            assert(seen.contains(seen[i]));
        } else {
            assert(order[i] == (hidden[i - seen.len()], true));
            assert(hidden.contains(hidden[i - seen.len()]));
        }
    }
    if cands.contains(turn.0) {
        if turn.1 && turn.0.hidden && signal_of(signals, turn.0.ssid) is None {
            assert(hidden.contains(turn.0));
            let i = hidden.index_of(turn.0);
            assert(order[seen.len() + i] == turn);
        }
        if !turn.1 && signal_of(signals, turn.0.ssid) is Some {
            let e = (turn.0, signal_of(signals, turn.0.ssid)->Some_0);
            assert(seen.contains(e));
            let i = seen.index_of(e);
            assert(order[i] == turn);
        }
    }
}

/// The models behind a list of turns.
pub open spec fn turns(v: Seq<(NetworkDef, bool)>) -> Seq<Turn> {
    v.map_values(|e: (NetworkDef, bool)| (e.0@, e.1))
}

/// The models behind a list of networks with their signals.
pub open spec fn seen_models(v: Seq<(NetworkDef, i32)>) -> Seq<Seen> {
    v.map_values(|e: (NetworkDef, i32)| (e.0@, e.1))
}

/// Puts a network with its signal behind all that are at least as strong.
fn insert_by_signal(out: &mut Vec<(NetworkDef, i32)>, e: (NetworkDef, i32))
    ensures
        ({
            let seen = seen_models(old(out)@);
            seen_models(final(out)@) == seen.insert(
                first_weaker(seen, e.1) as int,
                (e.0@, e.1),
            )
        }),
{
    let ghost seen = seen_models(out@);
    let mut at: usize = 0;
    assert(seen.skip(0) =~= seen);
    while at < out.len() && out[at].1 >= e.1
        invariant
            at <= out@.len(),
            seen == seen_models(out@),
            first_weaker(seen, e.1) == at + first_weaker(seen.skip(at as int), e.1),
        decreases out@.len() - at,
    {
        assert(seen.skip(at as int)[0] == (out@[at as int].0@, out@[at as int].1));
        assert(seen.skip(at as int).drop_first() =~= seen.skip(at + 1));
        at += 1;
    }
    assert(at < out@.len() ==> seen.skip(at as int)[0] == (
        out@[at as int].0@,
        out@[at as int].1,
    ));
    assert(seen_models(out@.insert(at as int, e)) =~= seen.insert(at as int, (e.0@, e.1)));
    out.insert(at, e);
}

fn sort_by_signal(cands: &Vec<NetworkDef>, signals: &Vec<(String, i32)>) -> (r: Vec<
    (NetworkDef, i32),
>)
    ensures
        seen_models(r@) == by_signal(
            config::network_models(cands@),
            backend::signal_models(signals@),
        ),
{
    let ghost cm = config::network_models(cands@);
    let ghost sm = backend::signal_models(signals@);
    let mut out: Vec<(NetworkDef, i32)> = Vec::new();
    let mut i: usize = 0;
    assert(seen_models(out@) =~= by_signal(cm.take(0), sm));
    while i < cands.len()
        invariant
            i <= cands@.len(),
            cm == config::network_models(cands@),
            sm == backend::signal_models(signals@),
            seen_models(out@) == by_signal(cm.take(i as int), sm),
        decreases cands@.len() - i,
    {
        assert(cm.take(i + 1).drop_last() =~= cm.take(i as int));
        assert(cm.take(i + 1).last() == cands@[i as int]@);
        match find_signal(signals, cands[i].ssid.as_str()) {
            Some(s) => {
                insert_by_signal(&mut out, (cands[i].clone(), s));
            },
            None => {},
        }
        i += 1;
    }
    assert(cm.take(i as int) =~= cm);
    out
}

/// The networks to dial, in order: those that are seen, the strongest first, and
/// then the hidden ones that are not seen. The flag tells the two apart.
pub fn order_candidates(cands: &Vec<NetworkDef>, signals: &Vec<(String, i32)>) -> (r: Vec<
    (NetworkDef, bool),
>)
    ensures
        turns(r@) == dial_order(
            config::network_models(cands@),
            backend::signal_models(signals@),
        ),
{
    let ghost cm = config::network_models(cands@);
    let ghost sm = backend::signal_models(signals@);
    let seen = sort_by_signal(cands, signals);
    let ghost first = by_signal(cm, sm).map_values(|e: Seen| (e.0, false));
    let mut out: Vec<(NetworkDef, bool)> = Vec::new();
    let mut i: usize = 0;
    assert(turns(out@) =~= first.take(0));
    while i < seen.len()
        invariant
            i <= seen@.len(),
            seen_models(seen@) == by_signal(cm, sm),
            first == by_signal(cm, sm).map_values(|e: Seen| (e.0, false)),
            turns(out@) == first.take(i as int),
        decreases seen@.len() - i,
    {
        let e = (seen[i].0.clone(), false);
        assert(by_signal(cm, sm)[i as int] == (seen@[i as int].0@, seen@[i as int].1));
        assert(turns(out@.push(e)) =~= turns(out@).push((e.0@, e.1)));
        assert(first.take(i + 1) =~= first.take(i as int).push(first[i as int]));
        out.push(e);
        i += 1;
    }
    assert(first.take(i as int) =~= first);
    let mut j: usize = 0;
    assert(unseen_hidden(cm.take(0), sm).map_values(|n: NetworkModel| (n, true)) =~= Seq::<
        Turn,
    >::empty());
    while j < cands.len()
        invariant
            j <= cands@.len(),
            cm == config::network_models(cands@),
            sm == backend::signal_models(signals@),
            turns(out@) == first + unseen_hidden(cm.take(j as int), sm).map_values(
                |n: NetworkModel| (n, true),
            ),
        decreases cands@.len() - j,
    {
        assert(cm.take(j + 1).drop_last() =~= cm.take(j as int));
        assert(cm.take(j + 1).last() == cands@[j as int]@);
        let ghost before = unseen_hidden(cm.take(j as int), sm);
        if cands[j].hidden && find_signal(signals, cands[j].ssid.as_str()).is_none() {
            let e = (cands[j].clone(), true);
            assert(turns(out@.push(e)) =~= turns(out@).push((e.0@, e.1)));
            assert(before.push(e.0@).map_values(|n: NetworkModel| (n, true))
                =~= before.map_values(|n: NetworkModel| (n, true)).push((e.0@, true)));
            out.push(e);
        }
        j += 1;
    }
    assert(cm.take(j as int) =~= cm);
    out
}

// ---- What joining a network leaves behind --------------------------------

/// `n` without its password.
pub open spec fn without_password(n: NetworkModel) -> NetworkModel {
    NetworkModel { password: None, ..n }
}

/// Whether a local password is kept for the network with this SSID.
pub open spec fn has_password(nets: Seq<NetworkModel>, ssid: Seq<char>) -> bool {
    config::network_in(nets, ssid) matches Some(n) && n.password is Some
}

/// The networks, without the password of the first one with this SSID.
pub open spec fn password_cleared(nets: Seq<NetworkModel>, ssid: Seq<char>) -> Seq<NetworkModel> {
    let i = text::first_index(config::ssids(nets), ssid) as int;
    if i < nets.len() {
        nets.update(i, without_password(nets[i]))
    } else {
        nets
    }
}

/// How many SSIDs a profile learns at most.
pub const MAX_LEARNED: usize = 16;

/// Whether joining `ssid` teaches this profile something.
pub open spec fn learns(p: ProfileModel, ssid: Seq<char>) -> bool {
    p.learn && !p.detect_ssids.contains(ssid) && p.detect_ssids.len() < MAX_LEARNED
}

/// `p`, having learnt `ssid`.
pub open spec fn taught(p: ProfileModel, ssid: Seq<char>) -> ProfileModel {
    ProfileModel { detect_ssids: p.detect_ssids.push(ssid), ..p }
}

/// Whether the profile with this name learns something from joining `ssid`.
pub open spec fn teaches(cfg: ConfigModel, name: Seq<char>, ssid: Seq<char>) -> bool {
    cfg.profiles.contains_key(name) && learns(cfg.profiles[name], ssid)
}

/// Whether joining `ssid` under this profile changes the configuration.
pub open spec fn join_changes(cfg: ConfigModel, name: Seq<char>, ssid: Seq<char>) -> bool {
    has_password(cfg.networks, ssid) || teaches(cfg, name, ssid)
}

/// The configuration after joining `ssid` under this profile. NetworkManager now
/// holds the secret, so the local copy goes; a profile that learns remembers the
/// SSID. What changes is saved.
pub open spec fn after_join(cfg: ConfigModel, name: Seq<char>, ssid: Seq<char>) -> ConfigModel {
    if join_changes(cfg, name, ssid) {
        config::owned(
            ConfigModel {
                networks: password_cleared(cfg.networks, ssid),
                profiles: if teaches(cfg, name, ssid) {
                    cfg.profiles.insert(name, taught(cfg.profiles[name], ssid))
                } else {
                    cfg.profiles
                },
                ..cfg
            },
        )
    } else {
        cfg
    }
}

/// Drops the password of the first network with this SSID. Tells whether there
/// was one.
fn drop_password(nets: &mut Vec<NetworkDef>, ssid: &str) -> (r: bool)
    ensures
        r == has_password(config::network_models(old(nets)@), ssid@),
        config::network_models(final(nets)@) == password_cleared(
            config::network_models(old(nets)@),
            ssid@,
        ),
{
    let i = config::find_network(nets, ssid);
    let ghost before = config::network_models(nets@);
    if i == nets.len() {
        return false;
    }
    let had = nets[i].password.is_some();
    assert(before[i as int] == nets@[i as int]@);
    let mut def = nets[i].clone();
    def.password = None;
    assert(def@ =~= without_password(before[i as int]));
    nets.set(i, def);
    assert(config::network_models(nets@) =~= before.update(i as int, def@));
    had
}

/// A network was just joined with a local password, and NetworkManager now holds
/// that secret: clears the local copy. Gives back what is then to be saved; none
/// where there was no local password.
pub fn clear_password_if_used(cfg: &mut Config, ssid: &str) -> (r: Option<ConfigFiles>)
    requires
        old(cfg).wf(),
    ensures
        final(cfg).wf(),
        final(cfg).profiles == old(cfg).profiles,
        r is Some == has_password(old(cfg)@.networks, ssid@),
        match r {
            Some(files) => {
                &&& final(cfg)@ == config::owned(
                    ConfigModel {
                        networks: password_cleared(old(cfg)@.networks, ssid@),
                        ..old(cfg)@
                    },
                )
                &&& files.main@ == (ConfigModel { networks: Seq::empty(), ..final(cfg)@ })
                &&& config::network_models(files.networks@) == final(cfg)@.networks
            },
            None => final(cfg)@ == old(cfg)@,
        },
{
    let ghost before = cfg@;
    if drop_password(&mut cfg.networks, ssid) {
        Some(cfg.save())
    } else {
        proof {
            let i = text::first_index(config::ssids(before.networks), ssid@) as int;
            if i < before.networks.len() {
                assert(before.networks[i] =~= without_password(before.networks[i]));
                assert(password_cleared(before.networks, ssid@) =~= before.networks);
            }
            assert(cfg@ =~= before);
        }
        None
    }
}

/// Applies what joining `ssid` under this profile leaves behind. The first flag
/// tells whether a password was cleared; what is to be saved comes second.
fn apply_join(cfg: &mut Config, name: &str, ssid: &str) -> (r: (bool, Option<ConfigFiles>))
    requires
        old(cfg).wf(),
    ensures
        final(cfg).wf(),
        final(cfg)@ == after_join(old(cfg)@, name@, ssid@),
        r.0 == has_password(old(cfg)@.networks, ssid@),
        r.1 is Some == join_changes(old(cfg)@, name@, ssid@),
        r.1 matches Some(files) ==> files.main@ == (ConfigModel {
            networks: Seq::empty(),
            ..final(cfg)@
        }) && config::network_models(files.networks@) == final(cfg)@.networks,
{
    let ghost before = cfg@;
    let cleared = drop_password(&mut cfg.networks, ssid);
    let mut learnt = false;
    match cfg.profiles.get_mut(name) {
        Some(p) => {
            if p.learn && !text::list_has(&p.detect_ssids, ssid) && p.detect_ssids.len()
                < MAX_LEARNED {
                p.detect_ssids.push(ssid.to_string());
                learnt = true;
                assert(p@ =~= taught(before.profiles[name@], ssid@));
            } else {
                assert(before.profiles.insert(name@, before.profiles[name@]) =~= before.profiles);
            }
        },
        None => {},
    }
    assert(learnt == teaches(before, name@, ssid@));
    if cleared || learnt {
        (cleared, Some(cfg.save()))
    } else {
        proof {
            let i = text::first_index(config::ssids(before.networks), ssid@) as int;
            if i < before.networks.len() {
                assert(before.networks[i] =~= without_password(before.networks[i]));
                assert(password_cleared(before.networks, ssid@) =~= before.networks);
            }
            assert(cfg@ =~= before);
        }
        (false, None)
    }
}

/// After joining a network no local password is kept for it, and every other
/// network is as it was.
pub proof fn joining_clears_only_that_password(
    cfg: ConfigModel,
    name: Seq<char>,
    ssid: Seq<char>,
    other: Seq<char>,
)
    ensures
        !has_password(after_join(cfg, name, ssid).networks, ssid),
        other != ssid ==> config::network_in(after_join(cfg, name, ssid).networks, other)
            == config::network_in(cfg.networks, other),
{
    let nets = cfg.networks;
    let out = after_join(cfg, name, ssid).networks;
    assert(config::ssids(out) =~= config::ssids(nets));
    text::lemma_first_index(config::ssids(nets), ssid);
    text::lemma_first_index(config::ssids(nets), other);
}

/// A profile that learns ends up with the SSIDs it has joined among its markers,
/// each once, and with no more markers than before or the limit allows.
pub proof fn learning_is_bounded_and_without_doubles(
    cfg: ConfigModel,
    name: Seq<char>,
    ssid: Seq<char>,
)
    requires
        cfg.profiles.contains_key(name),
        cfg.profiles[name].detect_ssids.no_duplicates(),
    ensures
        ({
            let p = cfg.profiles[name];
            let q = after_join(cfg, name, ssid).profiles[name];
            &&& after_join(cfg, name, ssid).profiles.contains_key(name)
            &&& q.detect_ssids.no_duplicates()
            &&& q.detect_ssids.len() <= p.detect_ssids.len() || q.detect_ssids.len() <= MAX_LEARNED
            &&& p.learn && p.detect_ssids.len() < MAX_LEARNED ==> q.detect_ssids.contains(ssid)
            &&& !p.learn ==> q == p
        }),
{
    let p = cfg.profiles[name];
    if learns(p, ssid) {
        let q = taught(p, ssid);
        assert(q.detect_ssids[p.detect_ssids.len() as int] == ssid);
        assert forall|i: int, j: int|
            0 <= i < q.detect_ssids.len() && 0 <= j < q.detect_ssids.len() && i != j implies
            q.detect_ssids[i] != q.detect_ssids[j] by {
            if i < p.detect_ssids.len() {
                assert(p.detect_ssids.contains(p.detect_ssids[i]));
            }
            if j < p.detect_ssids.len() {
                assert(p.detect_ssids.contains(p.detect_ssids[j]));
            }
        }
    }
}

// ---- The state machine ---------------------------------------------------

/// Why a network is dialed.
#[derive(Debug, Clone, Copy, PartialEq, Eq, Structural)]
pub enum Purpose {
    /// To have a connection on which Tailscale can come up.
    Bootstrap,
    /// It is a candidate; the flag tells whether it is dialed unseen.
    Candidate(bool),
    /// To be back on the bootstrap network when no candidate worked.
    Reconnect,
}

/// Which answer the flow waits for.
#[derive(Debug)]
pub enum Phase {
    /// Which interface to use.
    Interface,
    /// Switching the radio on.
    Radio,
    /// The first scan.
    FirstScan,
    /// What is in range, to find the bootstrap network.
    FirstLook,
    /// Connecting to the network with this SSID.
    Connect(String, Purpose),
    /// Whether the device is then connected.
    Device(String, Purpose),
    /// Which SSID it is then on.
    Active(String, Purpose),
    /// Saving the configuration. The flag tells whether a password was cleared.
    Save(String, Purpose, bool),
    /// Bringing an exit node up.
    Exit,
    /// Which SSID the device is on, with Tailscale in this state.
    Down(TsHealth),
    /// The second scan.
    SecondScan,
    /// What is in range, to order the candidates.
    SecondLook,
    /// Whether the network with this SSID carries traffic.
    Internet(String),
    /// Whether the device is still connected, to the bootstrap network.
    Still,
    Finished,
}

pub enum PhaseModel {
    Interface,
    Radio,
    FirstScan,
    FirstLook,
    Connect(Seq<char>, Purpose),
    Device(Seq<char>, Purpose),
    Active(Seq<char>, Purpose),
    Save(Seq<char>, Purpose, bool),
    Exit,
    Down(HealthModel),
    SecondScan,
    SecondLook,
    Internet(Seq<char>),
    Still,
    Finished,
}

impl View for Phase {
    type V = PhaseModel;

    open spec fn view(&self) -> PhaseModel {
        match self {
            Phase::Interface => PhaseModel::Interface,
            Phase::Radio => PhaseModel::Radio,
            Phase::FirstScan => PhaseModel::FirstScan,
            Phase::FirstLook => PhaseModel::FirstLook,
            Phase::Connect(s, p) => PhaseModel::Connect(s@, *p),
            Phase::Device(s, p) => PhaseModel::Device(s@, *p),
            Phase::Active(s, p) => PhaseModel::Active(s@, *p),
            Phase::Save(s, p, c) => PhaseModel::Save(s@, *p, *c),
            Phase::Exit => PhaseModel::Exit,
            Phase::Down(h) => PhaseModel::Down(h@),
            Phase::SecondScan => PhaseModel::SecondScan,
            Phase::SecondLook => PhaseModel::SecondLook,
            Phase::Internet(s) => PhaseModel::Internet(s@),
            Phase::Still => PhaseModel::Still,
            Phase::Finished => PhaseModel::Finished,
        }
    }
}

impl Clone for Phase {
    fn clone(&self) -> (r: Phase)
        ensures
            r@ == self@,
    {
        match self {
            Phase::Interface => Phase::Interface,
            Phase::Radio => Phase::Radio,
            Phase::FirstScan => Phase::FirstScan,
            Phase::FirstLook => Phase::FirstLook,
            Phase::Connect(s, p) => Phase::Connect(s.clone(), *p),
            Phase::Device(s, p) => Phase::Device(s.clone(), *p),
            Phase::Active(s, p) => Phase::Active(s.clone(), *p),
            Phase::Save(s, p, c) => Phase::Save(s.clone(), *p, *c),
            Phase::Exit => Phase::Exit,
            Phase::Down(h) => Phase::Down(h.clone()),
            Phase::SecondScan => Phase::SecondScan,
            Phase::SecondLook => Phase::SecondLook,
            Phase::Internet(s) => Phase::Internet(s.clone()),
            Phase::Still => Phase::Still,
            Phase::Finished => Phase::Finished,
        }
    }
}

/// What the flow asks of the outside world.
#[derive(Debug)]
pub enum Ask {
    /// The interface to use, with the preferred one.
    Interface(Option<String>),
    RadioOn,
    /// A scan with this interface, also for these SSIDs.
    Rescan(String, Vec<String>),
    /// The signals in range of this interface.
    Look(String),
    Connect { iface: String, net: NetworkDef, wait: u32, dns: String },
    DeviceConnected(String),
    ActiveSsid(String),
    /// One of these nodes as the active exit node.
    EnsureExitNode(Vec<String>),
    /// Whether there is internet.
    Internet,
    Save(ConfigFiles),
    Finish(Outcome),
}

pub enum AskModel {
    Interface(Option<Seq<char>>),
    RadioOn,
    Rescan(Seq<char>, Seq<Seq<char>>),
    Look(Seq<char>),
    Connect { iface: Seq<char>, net: NetworkModel, wait: u32, dns: Seq<char> },
    DeviceConnected(Seq<char>),
    ActiveSsid(Seq<char>),
    EnsureExitNode(Seq<Seq<char>>),
    Internet,
    /// This configuration, its networks in a file of their own.
    Save(ConfigModel),
    Finish(OutcomeModel),
}

/// The configuration that two files hold.
pub open spec fn in_files(files: ConfigFiles) -> ConfigModel {
    ConfigModel { networks: config::network_models(files.networks@), ..files.main@ }
}

impl View for Ask {
    type V = AskModel;

    open spec fn view(&self) -> AskModel {
        match self {
            Ask::Interface(p) => AskModel::Interface(text::opt_view(*p)),
            Ask::RadioOn => AskModel::RadioOn,
            Ask::Rescan(i, s) => AskModel::Rescan(i@, text::views(s@)),
            Ask::Look(i) => AskModel::Look(i@),
            Ask::Connect { iface, net, wait, dns } => AskModel::Connect {
                iface: iface@,
                net: net@,
                wait: *wait,
                dns: dns@,
            },
            Ask::DeviceConnected(i) => AskModel::DeviceConnected(i@),
            Ask::ActiveSsid(i) => AskModel::ActiveSsid(i@),
            Ask::EnsureExitNode(n) => AskModel::EnsureExitNode(text::views(n@)),
            Ask::Internet => AskModel::Internet,
            Ask::Save(f) => AskModel::Save(in_files(*f)),
            Ask::Finish(o) => AskModel::Finish(o@),
        }
    }
}

impl Ask {
    /// Files to save hold no networks in the main one.
    pub open spec fn wf(&self) -> bool {
        self matches Ask::Save(f) ==> f.main@.networks == Seq::<NetworkModel>::empty()
    }
}

/// What came of it.
#[derive(Debug)]
pub enum Reply {
    Interface(Option<String>),
    Done,
    Signals(Vec<(String, i32)>),
    Connected(Result<(), String>),
    Yes(bool),
    Ssid(Option<String>),
    Health(TsHealth),
    Online(Connectivity),
    Saved(Result<(), String>),
}

pub enum ReplyModel {
    Interface(Option<Seq<char>>),
    Done,
    Signals(Seq<(Seq<char>, i32)>),
    Connected(Result<(), Seq<char>>),
    Yes(bool),
    Ssid(Option<Seq<char>>),
    Health(HealthModel),
    Online(Connectivity),
    Saved(Result<(), Seq<char>>),
}

impl View for Reply {
    type V = ReplyModel;

    open spec fn view(&self) -> ReplyModel {
        match self {
            Reply::Interface(i) => ReplyModel::Interface(text::opt_view(*i)),
            Reply::Done => ReplyModel::Done,
            Reply::Signals(v) => ReplyModel::Signals(backend::signal_models(v@)),
            Reply::Connected(r) => ReplyModel::Connected(backend::result_view(*r)),
            Reply::Yes(b) => ReplyModel::Yes(*b),
            Reply::Ssid(s) => ReplyModel::Ssid(text::opt_view(*s)),
            Reply::Health(h) => ReplyModel::Health(h@),
            Reply::Online(c) => ReplyModel::Online(*c),
            Reply::Saved(r) => ReplyModel::Saved(backend::result_view(*r)),
        }
    }
}

/// What the flow tells, between two questions.
#[derive(Debug)]
pub enum Say {
    Log(String),
    Notify(String, String, Urgency),
}

pub enum SayModel {
    Log(Seq<char>),
    Notify(Seq<char>, Seq<char>, Urgency),
}

impl View for Say {
    type V = SayModel;

    open spec fn view(&self) -> SayModel {
        match self {
            Say::Log(l) => SayModel::Log(l@),
            Say::Notify(s, b, u) => SayModel::Notify(s@, b@, *u),
        }
    }
}

/// The models behind a list of things said.
pub open spec fn sayings(v: Seq<Say>) -> Seq<SayModel> {
    v.map_values(|s: Say| s@)
}

/// A flow: what it was started with, what it has learnt since, and where it
/// stands.
#[verifier::ext_equal]
pub struct FlowModel {
    pub name: Seq<char>,
    pub quiet: bool,
    /// The profile, and what it may end up on, as they were at the start.
    pub profile: ProfileModel,
    pub candidates: Seq<NetworkModel>,
    pub iface: Seq<char>,
    /// The networks still to dial.
    pub queue: Seq<Turn>,
    pub on_bootstrap: bool,
    /// A candidate has been dialed.
    pub attempted: bool,
    pub cfg: ConfigModel,
    pub phase: PhaseModel,
}

/// The next state, what is said on the way, and what is asked then.
#[verifier::ext_equal]
pub struct StepModel {
    pub state: FlowModel,
    pub says: Seq<SayModel>,
    pub ask: AskModel,
}

/// A step without a word.
pub open spec fn quietly(state: FlowModel, phase: PhaseModel, ask: AskModel) -> StepModel {
    StepModel { state: FlowModel { phase, ..state }, says: Seq::empty(), ask }
}

/// `step`, with something said first.
pub open spec fn saying(says: Seq<SayModel>, step: StepModel) -> StepModel {
    StepModel { says: says + step.says, ..step }
}

/// A line for the log.
pub open spec fn note(line: Seq<char>) -> Seq<SayModel> {
    seq![SayModel::Log(line)]
}

/// A notification; in a quiet flow only its entry in the log.
pub open spec fn shout(quiet: bool, summary: Seq<char>, body: Seq<char>, u: Urgency) -> Seq<
    SayModel,
> {
    if quiet {
        note(notify::entry(summary, body, u))
    } else {
        seq![SayModel::Notify(summary, body, u)]
    }
}

/// The end of a flow.
pub open spec fn end(state: FlowModel, outcome: OutcomeModel) -> StepModel {
    quietly(state, PhaseModel::Finished, AskModel::Finish(outcome))
}

/// The SSIDs to scan for: the candidates and the bootstrap network.
pub open spec fn scan_targets(s: FlowModel) -> Seq<Seq<char>> {
    match s.profile.bootstrap {
        Some(bs) => config::ssids(s.candidates).push(bs),
        None => config::ssids(s.candidates),
    }
}

/// The names of the candidates, for people.
pub open spec fn candidate_names(s: FlowModel) -> Seq<char> {
    text::joined(config::ssids(s.candidates), ", "@)
}

pub open spec fn bool_text(b: bool) -> Seq<char> {
    if b {
        "true"@
    } else {
        "false"@
    }
}

pub open spec fn start_line(s: FlowModel) -> Seq<char> {
    "flow start: profile="@ + s.name + " iface="@ + s.iface + " tailscale="@ + bool_text(
        s.profile.tailscale,
    ) + " candidates=["@ + candidate_names(s) + "]"@
}

/// The flow for the profile `name` starts. An unknown profile ends it before
/// anything is asked of the outside world.
pub open spec fn start(cfg: ConfigModel, name: Seq<char>, quiet: bool) -> StepModel {
    let known = cfg.profiles.contains_key(name);
    let profile = if known {
        cfg.profiles[name]
    } else {
        config::bare_profile(false)
    };
    let state = FlowModel {
        name,
        quiet,
        profile,
        candidates: candidates(cfg.networks, profile),
        iface: Seq::empty(),
        queue: Seq::empty(),
        on_bootstrap: false,
        attempted: false,
        cfg,
        phase: PhaseModel::Interface,
    };
    if known {
        quietly(state, PhaseModel::Interface, AskModel::Interface(cfg.settings.interface))
    } else {
        saying(
            shout(
                quiet,
                "breadcrumbs: unknown profile"@,
                "'"@ + name + "' is not defined in breadcrumbs.toml"@,
                Urgency::Critical,
            ),
            end(state, OutcomeModel::UnknownProfile(name)),
        )
    }
}

/// `net` is dialed.
pub open spec fn dial(s: FlowModel, net: NetworkModel, purpose: Purpose) -> StepModel {
    quietly(
        s,
        PhaseModel::Connect(net.ssid, purpose),
        AskModel::Connect {
            iface: s.iface,
            net,
            wait: s.cfg.settings.connect_wait,
            dns: config::dns_for(net, s.cfg.settings.dns),
        },
    )
}

/// An exit node is brought up.
pub open spec fn ask_exit(s: FlowModel) -> StepModel {
    quietly(s, PhaseModel::Exit, AskModel::EnsureExitNode(config::exit_nodes(s.cfg, s.name)))
}

/// With Tailscale required, the bootstrap network comes first, where there is
/// one in reach.
pub open spec fn bootstrap(s: FlowModel, signals: Seq<(Seq<char>, i32)>) -> StepModel {
    match s.profile.bootstrap {
        None => ask_exit(s),
        Some(bs) => match config::network_in(s.cfg.networks, bs) {
            None => saying(
                note("bootstrap SSID '"@ + bs + "' has no credentials in config"@),
                ask_exit(s),
            ),
            Some(n) => if signal_of(signals, n.ssid) is Some || n.hidden {
                dial(s, n, Purpose::Bootstrap)
            } else {
                saying(note("bootstrap not in range: "@ + n.ssid), ask_exit(s))
            },
        },
    }
}

/// No candidate worked and there is no bootstrap network to be on.
pub open spec fn no_networks(s: FlowModel) -> StepModel {
    saying(
        shout(
            s.quiet,
            "breadcrumbs: no known networks"@,
            "profile '"@ + s.name + "': none of ["@ + candidate_names(s) + "] are in range"@,
            Urgency::Critical,
        ) + note("flow end: no networks connected (profile="@ + s.name + ")"@),
        end(s, OutcomeModel::NoNetworks),
    )
}

/// The bootstrap network, by name.
pub open spec fn bootstrap_name(s: FlowModel) -> Seq<char> {
    match s.profile.bootstrap {
        Some(bs) => bs,
        None => "bootstrap"@,
    }
}

pub open spec fn stay_reason(s: FlowModel) -> Seq<char> {
    (if s.attempted {
        "target network connect failed"@
    } else {
        "target network not in range"@
    }) + " — staying on "@ + bootstrap_name(s) + " (Tailscale OK)"@
}

/// No candidate worked; the flow ends on the bootstrap network.
pub open spec fn stay(s: FlowModel) -> StepModel {
    saying(
        shout(
            s.quiet,
            "breadcrumbs: using bootstrap"@,
            stay_reason(s),
            Urgency::Normal,
        ) + note("flow end: on bootstrap "@ + bootstrap_name(s) + "; "@ + stay_reason(s)),
        end(
            s,
            OutcomeModel::Connected { ssid: bootstrap_name(s), note: Some(stay_reason(s)) },
        ),
    )
}

/// The next network is dialed; where none is left, the bootstrap network is all
/// there is.
pub open spec fn dial_next(s: FlowModel) -> StepModel {
    if s.queue.len() > 0 {
        dial(
            FlowModel { queue: s.queue.drop_first(), attempted: true, ..s },
            s.queue[0].0,
            Purpose::Candidate(s.queue[0].1),
        )
    } else if s.on_bootstrap {
        quietly(s, PhaseModel::Still, AskModel::DeviceConnected(s.iface))
    } else {
        no_networks(s)
    }
}

/// What the log says when a dialed network did not work out.
pub open spec fn failure_line(ssid: Seq<char>, purpose: Purpose, e: Seq<char>) -> Seq<char> {
    (match purpose {
        Purpose::Bootstrap => "bootstrap connect failed: "@,
        Purpose::Candidate(false) => "connect failed (visible): "@,
        Purpose::Candidate(true) => "connect failed (hidden): "@,
        Purpose::Reconnect => "bootstrap reconnect failed: "@,
    }) + ssid + " — "@ + e
}

/// A dialed network did not work out.
pub open spec fn failed(s: FlowModel, ssid: Seq<char>, purpose: Purpose, e: Seq<char>) -> StepModel {
    saying(
        note(failure_line(ssid, purpose, e)),
        match purpose {
            Purpose::Bootstrap => ask_exit(s),
            Purpose::Candidate(_) => dial_next(s),
            Purpose::Reconnect => no_networks(FlowModel { on_bootstrap: false, ..s }),
        },
    )
}

/// A network has been joined, and what that leaves behind is saved.
pub open spec fn proceed(s: FlowModel, ssid: Seq<char>, purpose: Purpose) -> StepModel {
    match purpose {
        Purpose::Bootstrap => ask_exit(s),
        Purpose::Candidate(_) => quietly(s, PhaseModel::Internet(ssid), AskModel::Internet),
        Purpose::Reconnect => stay(s),
    }
}

/// A network has been joined.
pub open spec fn joined(s: FlowModel, ssid: Seq<char>, purpose: Purpose) -> StepModel {
    let says = match purpose {
        Purpose::Bootstrap => note("bootstrap connected: "@ + ssid),
        Purpose::Candidate(_) => Seq::empty(),
        Purpose::Reconnect => note("bootstrap reconnected: "@ + ssid),
    };
    let s2 = FlowModel {
        cfg: after_join(s.cfg, s.name, ssid),
        on_bootstrap: s.on_bootstrap || purpose == Purpose::Bootstrap,
        ..s
    };
    saying(
        says,
        if join_changes(s.cfg, s.name, ssid) {
            quietly(
                s2,
                PhaseModel::Save(ssid, purpose, has_password(s.cfg.networks, ssid)),
                AskModel::Save(s2.cfg),
            )
        } else {
            proceed(s2, ssid, purpose)
        },
    )
}

/// What the log says when the configuration could not be saved.
pub open spec fn unsaved_line(ssid: Seq<char>, cleared: bool, e: Seq<char>) -> Seq<char> {
    (if cleared {
        "failed to persist cleared password for "@
    } else {
        "failed to persist learned SSID "@
    }) + ssid + ": "@ + e
}

/// The flow ends on a candidate.
pub open spec fn connected(s: FlowModel, ssid: Seq<char>, online: bool) -> StepModel {
    let n = if online {
        None
    } else {
        Some("associated but no internet yet"@)
    };
    saying(
        match n {
            None => shout(
                s.quiet,
                "breadcrumbs: connected"@,
                ssid + " ("@ + s.name + ")"@,
                Urgency::Low,
            ) + note("flow end: connected "@ + ssid + " (profile="@ + s.name + ")"@),
            Some(t) => shout(
                s.quiet,
                "breadcrumbs: connected (degraded)"@,
                ssid + " ("@ + s.name + ") — "@ + t,
                Urgency::Normal,
            ) + note("flow end: connected "@ + ssid + " (profile="@ + s.name + ") note="@ + t),
        },
        end(s, OutcomeModel::Connected { ssid, note: n }),
    )
}

/// Tailscale is required and not healthy: the flow ends where the device is.
pub open spec fn tailscale_down(s: FlowModel, h: HealthModel, active: Option<Seq<char>>) -> StepModel {
    let ssid = match active {
        Some(a) => Some(a),
        None => s.profile.bootstrap,
    };
    let place = match ssid {
        Some(a) => a,
        None => "Wi-Fi"@,
    };
    saying(
        shout(
            s.quiet,
            "Tailscale Error"@,
            tailscale::description(h) + " — staying on "@ + place,
            Urgency::Critical,
        ),
        end(s, OutcomeModel::TailscaleError { ssid, health: h }),
    )
}

/// The kind of reply that each phase waits for.
pub open spec fn fits(phase: PhaseModel, reply: ReplyModel) -> bool {
    match phase {
        PhaseModel::Interface => reply is Interface,
        PhaseModel::Radio | PhaseModel::FirstScan | PhaseModel::SecondScan => reply is Done,
        PhaseModel::FirstLook | PhaseModel::SecondLook => reply is Signals,
        PhaseModel::Connect(..) => reply is Connected,
        PhaseModel::Device(..) | PhaseModel::Still => reply is Yes,
        PhaseModel::Active(..) | PhaseModel::Down(_) => reply is Ssid,
        PhaseModel::Save(..) => reply is Saved,
        PhaseModel::Exit => reply is Health,
        PhaseModel::Internet(_) => reply is Online,
        PhaseModel::Finished => false,
    }
}

/// What follows when `reply` is what the flow waited for.
pub open spec fn step(s: FlowModel, reply: ReplyModel) -> StepModel {
    match (s.phase, reply) {
        (PhaseModel::Interface, ReplyModel::Interface(None)) => saying(
            shout(
                s.quiet,
                "breadcrumbs: no Wi-Fi adapter"@,
                "Hardware issue — Wi-Fi device not found. Manual check needed."@,
                Urgency::Critical,
            ),
            end(s, OutcomeModel::NoInterface),
        ),
        (PhaseModel::Interface, ReplyModel::Interface(Some(iface))) => quietly(
            FlowModel { iface, ..s },
            PhaseModel::Radio,
            AskModel::RadioOn,
        ),
        (PhaseModel::Radio, _) => saying(
            note(start_line(s)),
            quietly(s, PhaseModel::FirstScan, AskModel::Rescan(s.iface, scan_targets(s))),
        ),
        (PhaseModel::FirstScan, _) => quietly(s, PhaseModel::FirstLook, AskModel::Look(s.iface)),
        (PhaseModel::FirstLook, ReplyModel::Signals(v)) => if s.profile.tailscale {
            bootstrap(s, v)
        } else {
            quietly(s, PhaseModel::SecondLook, AskModel::Look(s.iface))
        },
        (PhaseModel::Connect(ssid, p), ReplyModel::Connected(r)) => match r {
            Ok(_) => quietly(
                s,
                PhaseModel::Device(ssid, p),
                AskModel::DeviceConnected(s.iface),
            ),
            Err(e) => failed(s, ssid, p, e),
        },
        (PhaseModel::Device(ssid, p), ReplyModel::Yes(up)) => if up {
            quietly(s, PhaseModel::Active(ssid, p), AskModel::ActiveSsid(s.iface))
        } else {
            failed(s, ssid, p, "device not connected after nmcli success"@)
        },
        (PhaseModel::Active(ssid, p), ReplyModel::Ssid(active)) => match landed(active, ssid) {
            Ok(_) => joined(s, ssid, p),
            Err(e) => failed(s, ssid, p, e),
        },
        (PhaseModel::Save(ssid, p, cleared), ReplyModel::Saved(r)) => match r {
            Ok(_) => proceed(s, ssid, p),
            Err(e) => saying(note(unsaved_line(ssid, cleared, e)), proceed(s, ssid, p)),
        },
        (PhaseModel::Exit, ReplyModel::Health(h)) => if h is Healthy {
            saying(
                note(
                    "tailscale healthy via exit node "@ + text::joined(
                        config::exit_nodes(s.cfg, s.name),
                        ", "@,
                    ),
                ),
                quietly(s, PhaseModel::SecondScan, AskModel::Rescan(s.iface, scan_targets(s))),
            )
        } else {
            quietly(s, PhaseModel::Down(h), AskModel::ActiveSsid(s.iface))
        },
        (PhaseModel::Down(h), ReplyModel::Ssid(active)) => tailscale_down(s, h, active),
        (PhaseModel::SecondScan, _) => quietly(
            s,
            PhaseModel::SecondLook,
            AskModel::Look(s.iface),
        ),
        (PhaseModel::SecondLook, ReplyModel::Signals(v)) => dial_next(
            FlowModel { queue: dial_order(s.candidates, v), ..s },
        ),
        (PhaseModel::Internet(ssid), ReplyModel::Online(c)) => connected(s, ssid, c is Online),
        (PhaseModel::Still, ReplyModel::Yes(up)) => if up {
            stay(s)
        } else {
            match s.profile.bootstrap {
                Some(bs) => match config::network_in(s.cfg.networks, bs) {
                    Some(n) => dial(s, n, Purpose::Reconnect),
                    None => stay(s),
                },
                None => stay(s),
            }
        },
        _ => end(s, OutcomeModel::NoNetworks),
    }
}

/// Whether a device that is on `active` has landed on `ssid`. A device that does
/// not tell is taken at its word.
pub open spec fn landed(active: Option<Seq<char>>, ssid: Seq<char>) -> Result<(), Seq<char>> {
    match active {
        Some(a) => if a == ssid {
            Ok(())
        } else {
            Err("device is connected to "@ + a + " instead"@)
        },
        None => Ok(()),
    }
}

/// A flow in progress.
#[derive(Debug)]
pub struct Flow {
    name: String,
    quiet: bool,
    profile: Profile,
    candidates: Vec<NetworkDef>,
    iface: String,
    queue: Vec<(NetworkDef, bool)>,
    on_bootstrap: bool,
    attempted: bool,
    cfg: Config,
    phase: Phase,
}

impl View for Flow {
    type V = FlowModel;

    closed spec fn view(&self) -> FlowModel {
        FlowModel {
            name: self.name@,
            quiet: self.quiet,
            profile: self.profile@,
            candidates: config::network_models(self.candidates@),
            iface: self.iface@,
            queue: turns(self.queue@),
            on_bootstrap: self.on_bootstrap,
            attempted: self.attempted,
            cfg: self.cfg@,
            phase: self.phase@,
        }
    }
}

/// The step was made: this is the state after it, what is said now (having said
/// `before`), and what is asked.
pub open spec fn made(
    step: StepModel,
    after: FlowModel,
    before: Seq<Say>,
    now: Seq<Say>,
    ask: AskModel,
) -> bool {
    after == step.state && sayings(now) == sayings(before) + step.says && ask == step.ask
}

fn ssid_list(nets: &Vec<NetworkDef>) -> (r: Vec<String>)
    ensures
        text::views(r@) == config::ssids(config::network_models(nets@)),
{
    let mut out: Vec<String> = Vec::new();
    let ghost all = config::ssids(config::network_models(nets@));
    let mut i: usize = 0;
    assert(text::views(out@) =~= all.take(0));
    while i < nets.len()
        invariant
            i <= nets@.len(),
            all == config::ssids(config::network_models(nets@)),
            text::views(out@) == all.take(i as int),
        decreases nets@.len() - i,
    {
        assert(all.take(i + 1) =~= all.take(i as int).push(all[i as int]));
        out.push(nets[i].ssid.clone());
        i += 1;
    }
    assert(all.take(i as int) =~= all);
    out
}

pub(crate) fn say_log(says: &mut Vec<Say>, line: String)
    ensures
        sayings(final(says)@) == sayings(old(says)@) + note(line@),
{
    let e = Say::Log(line);
    assert(sayings(says@.push(e)) =~= sayings(says@) + note(line@));
    says.push(e);
}

pub(crate) fn say_notify(says: &mut Vec<Say>, quiet: bool, summary: &str, body: String, urgency: Urgency)
    ensures
        sayings(final(says)@) == sayings(old(says)@) + shout(quiet, summary@, body@, urgency),
{
    if quiet {
        say_log(says, notify::notify_entry(summary, body.as_str(), urgency));
    } else {
        let e = Say::Notify(summary.to_string(), body, urgency);
        assert(sayings(says@.push(e)) =~= sayings(says@) + shout(quiet, summary@, body@, urgency));
        says.push(e);
    }
}

fn text_of_bool(b: bool) -> (r: &'static str)
    ensures
        r@ == bool_text(b),
{
    if b {
        "true"
    } else {
        "false"
    }
}

/// Whether a device that is on `active` has landed on `ssid`.
pub fn check_landed(active: &Option<String>, ssid: &str) -> (r: Result<(), String>)
    ensures
        backend::result_view(r) == landed(text::opt_view(*active), ssid@),
{
    match active {
        Some(a) => if text::same(a.as_str(), ssid) {
            Ok(())
        } else {
            Err("device is connected to ".to_string().concat(a.as_str()).concat(" instead"))
        },
        None => Ok(()),
    }
}

impl Flow {
    /// The configuration is in order.
    pub closed spec fn wf(&self) -> bool {
        self.cfg.wf()
    }

    /// The configuration as the flow has it now.
    pub fn config(&self) -> (r: &Config)
        ensures
            r@ == self@.cfg,
            r.wf() == self.wf(),
    {
        &self.cfg
    }

    /// Ends the flow and hands its configuration back.
    pub fn into_config(self) -> (r: Config)
        ensures
            r@ == self@.cfg,
            r.wf() == self.wf(),
    {
        self.cfg
    }

    /// Starts the flow for the profile `name`.
    pub fn start(cfg: Config, name: &str, quiet: bool, says: &mut Vec<Say>) -> (r: (Flow, Ask))
        requires
            cfg.wf(),
        ensures
            r.0.wf(),
            r.1.wf(),
            made(start(cfg@, name@, quiet), r.0@, old(says)@, final(says)@, r.1@),
    {
        let found = match cfg.profile(name) {
            Some(p) => Some(p.clone()),
            None => None,
        };
        let (profile, is_known) = match found {
            Some(p) => (p, true),
            None => (Profile::default(), false),
        };
        let candidates = resolve_candidates(&cfg, &profile);
        let preferred = text::copy_opt(&cfg.settings.interface);
        let mut flow = Flow {
            name: name.to_string(),
            quiet,
            profile,
            candidates,
            iface: String::new(),
            queue: Vec::new(),
            on_bootstrap: false,
            attempted: false,
            cfg,
            phase: Phase::Interface,
        };
        assert(flow.queue@.len() == 0);
        assert(turns(flow.queue@) =~= Seq::<Turn>::empty());
        assert(flow.iface@ =~= Seq::<char>::empty());
        if is_known {
            let ask = Ask::Interface(preferred);
            assert(sayings(says@) =~= sayings(old(says)@) + Seq::<SayModel>::empty());
            (flow, ask)
        } else {
            say_notify(
                says,
                quiet,
                "breadcrumbs: unknown profile",
                "'".to_string().concat(name).concat("' is not defined in breadcrumbs.toml"),
                Urgency::Critical,
            );
            let ask = flow.finish(Outcome::UnknownProfile(name.to_string()));
            assert(sayings(says@) =~= sayings(old(says)@) + start(cfg@, name@, quiet).says);
            (flow, ask)
        }
    }

    fn finish(&mut self, outcome: Outcome) -> (r: Ask)
        requires
            old(self).wf(),
        ensures
            final(self).wf(),
            r.wf(),
            final(self)@ == end(old(self)@, outcome@).state,
            r@ == end(old(self)@, outcome@).ask,
            end(old(self)@, outcome@).says == Seq::<SayModel>::empty(),
    {
        self.phase = Phase::Finished;
        Ask::Finish(outcome)
    }

    fn dial(&mut self, net: NetworkDef, purpose: Purpose) -> (r: Ask)
        requires
            old(self).wf(),
        ensures
            final(self).wf(),
            r.wf(),
            final(self)@ == dial(old(self)@, net@, purpose).state,
            r@ == dial(old(self)@, net@, purpose).ask,
            dial(old(self)@, net@, purpose).says == Seq::<SayModel>::empty(),
    {
        self.phase = Phase::Connect(net.ssid.clone(), purpose);
        let dns = net.effective_dns(self.cfg.settings.dns.as_str()).to_string();
        Ask::Connect {
            iface: self.iface.clone(),
            net,
            wait: self.cfg.settings.connect_wait,
            dns,
        }
    }

    fn ask_exit(&mut self) -> (r: Ask)
        requires
            old(self).wf(),
        ensures
            final(self).wf(),
            r.wf(),
            final(self)@ == ask_exit(old(self)@).state,
            r@ == ask_exit(old(self)@).ask,
            ask_exit(old(self)@).says == Seq::<SayModel>::empty(),
    {
        self.phase = Phase::Exit;
        Ask::EnsureExitNode(self.cfg.exit_nodes_for(self.name.as_str()))
    }

    fn targets(&self) -> (r: Vec<String>)
        ensures
            text::views(r@) == scan_targets(self@),
    {
        let mut out = ssid_list(&self.candidates);
        match &self.profile.bootstrap {
            Some(bs) => out.push(bs.clone()),
            None => {},
        }
        out
    }

    fn names(&self) -> (r: String)
        ensures
            r@ == candidate_names(self@),
    {
        text::join(&ssid_list(&self.candidates), ", ")
    }

    fn bootstrap(&mut self, says: &mut Vec<Say>, signals: &Vec<(String, i32)>) -> (r: Ask)
        requires
            old(self).wf(),
        ensures
            final(self).wf(),
            r.wf(),
            made(
                bootstrap(old(self)@, backend::signal_models(signals@)),
                final(self)@,
                old(says)@,
                final(says)@,
                r@,
            ),
    {
        let ghost want = bootstrap(self@, backend::signal_models(signals@));
        let found = match &self.profile.bootstrap {
            None => None,
            Some(bs) => match self.cfg.network(bs.as_str()) {
                None => {
                    let line = "bootstrap SSID '".to_string().concat(bs.as_str()).concat(
                        "' has no credentials in config",
                    );
                    say_log(says, line);
                    None
                },
                Some(n) => {
                    if find_signal(signals, n.ssid.as_str()).is_some() || n.hidden {
                        Some(n.clone())
                    } else {
                        say_log(
                            says,
                            "bootstrap not in range: ".to_string().concat(n.ssid.as_str()),
                        );
                        None
                    }
                },
            },
        };
        let ask = match found {
            Some(n) => self.dial(n, Purpose::Bootstrap),
            None => self.ask_exit(),
        };
        assert(sayings(says@) =~= sayings(old(says)@) + want.says);
        ask
    }

    fn no_networks(&mut self, says: &mut Vec<Say>) -> (r: Ask)
        requires
            old(self).wf(),
        ensures
            final(self).wf(),
            r.wf(),
            made(no_networks(old(self)@), final(self)@, old(says)@, final(says)@, r@),
    {
        let ghost want = no_networks(self@);
        let body = "profile '".to_string().concat(self.name.as_str()).concat(
            "': none of [",
        ).concat(self.names().as_str()).concat("] are in range");
        say_notify(says, self.quiet, "breadcrumbs: no known networks", body, Urgency::Critical);
        say_log(
            says,
            "flow end: no networks connected (profile=".to_string().concat(
                self.name.as_str(),
            ).concat(")"),
        );
        let ask = self.finish(Outcome::NoNetworks);
        assert(sayings(says@) =~= sayings(old(says)@) + want.says);
        ask
    }

    fn stay(&mut self, says: &mut Vec<Say>) -> (r: Ask)
        requires
            old(self).wf(),
        ensures
            final(self).wf(),
            r.wf(),
            made(stay(old(self)@), final(self)@, old(says)@, final(says)@, r@),
    {
        let ghost want = stay(self@);
        let bs = match &self.profile.bootstrap {
            Some(bs) => bs.clone(),
            None => "bootstrap".to_string(),
        };
        let what = if self.attempted {
            "target network connect failed"
        } else {
            "target network not in range"
        };
        let reason = what.to_string().concat(" — staying on ").concat(bs.as_str()).concat(
            " (Tailscale OK)",
        );
        say_notify(
            says,
            self.quiet,
            "breadcrumbs: using bootstrap",
            reason.clone(),
            Urgency::Normal,
        );
        say_log(
            says,
            "flow end: on bootstrap ".to_string().concat(bs.as_str()).concat("; ").concat(
                reason.as_str(),
            ),
        );
        let ask = self.finish(Outcome::Connected { ssid: bs, note: Some(reason) });
        assert(sayings(says@) =~= sayings(old(says)@) + want.says);
        ask
    }

    fn dial_next(&mut self, says: &mut Vec<Say>) -> (r: Ask)
        requires
            old(self).wf(),
        ensures
            final(self).wf(),
            r.wf(),
            made(dial_next(old(self)@), final(self)@, old(says)@, final(says)@, r@),
    {
        let ghost want = dial_next(self@);
        if self.queue.len() > 0 {
            let ghost before = turns(self.queue@);
            let (net, unseen) = self.queue.remove(0);
            self.attempted = true;
            assert(before[0] == (net@, unseen));
            assert(turns(self.queue@) =~= before.drop_first());
            let ask = self.dial(net, Purpose::Candidate(unseen));
            assert(sayings(says@) =~= sayings(old(says)@) + want.says);
            ask
        } else if self.on_bootstrap {
            self.phase = Phase::Still;
            assert(sayings(says@) =~= sayings(old(says)@) + want.says);
            Ask::DeviceConnected(self.iface.clone())
        } else {
            self.no_networks(says)
        }
    }

    fn failed(&mut self, says: &mut Vec<Say>, ssid: &str, purpose: Purpose, e: &str) -> (r: Ask)
        requires
            old(self).wf(),
        ensures
            final(self).wf(),
            r.wf(),
            made(
                failed(old(self)@, ssid@, purpose, e@),
                final(self)@,
                old(says)@,
                final(says)@,
                r@,
            ),
    {
        let ghost want = failed(self@, ssid@, purpose, e@);
        let what = match purpose {
            Purpose::Bootstrap => "bootstrap connect failed: ",
            Purpose::Candidate(false) => "connect failed (visible): ",
            Purpose::Candidate(true) => "connect failed (hidden): ",
            Purpose::Reconnect => "bootstrap reconnect failed: ",
        };
        say_log(says, what.to_string().concat(ssid).concat(" — ").concat(e));
        let ask = match purpose {
            Purpose::Bootstrap => self.ask_exit(),
            Purpose::Candidate(_) => self.dial_next(says),
            Purpose::Reconnect => {
                self.on_bootstrap = false;
                self.no_networks(says)
            },
        };
        assert(sayings(says@) =~= sayings(old(says)@) + want.says);
        ask
    }

    fn proceed(&mut self, says: &mut Vec<Say>, ssid: String, purpose: Purpose) -> (r: Ask)
        requires
            old(self).wf(),
        ensures
            final(self).wf(),
            r.wf(),
            made(
                proceed(old(self)@, ssid@, purpose),
                final(self)@,
                old(says)@,
                final(says)@,
                r@,
            ),
    {
        let ghost want = proceed(self@, ssid@, purpose);
        let ask = match purpose {
            Purpose::Bootstrap => self.ask_exit(),
            Purpose::Candidate(_) => {
                self.phase = Phase::Internet(ssid);
                Ask::Internet
            },
            Purpose::Reconnect => self.stay(says),
        };
        assert(sayings(says@) =~= sayings(old(says)@) + want.says);
        ask
    }

    fn joined(&mut self, says: &mut Vec<Say>, ssid: String, purpose: Purpose) -> (r: Ask)
        requires
            old(self).wf(),
        ensures
            final(self).wf(),
            r.wf(),
            made(
                joined(old(self)@, ssid@, purpose),
                final(self)@,
                old(says)@,
                final(says)@,
                r@,
            ),
    {
        let ghost want = joined(self@, ssid@, purpose);
        match purpose {
            Purpose::Bootstrap => {
                self.on_bootstrap = true;
                say_log(says, "bootstrap connected: ".to_string().concat(ssid.as_str()));
            },
            Purpose::Candidate(_) => {},
            Purpose::Reconnect => {
                say_log(says, "bootstrap reconnected: ".to_string().concat(ssid.as_str()));
            },
        }
        let (cleared, files) = apply_join(&mut self.cfg, self.name.as_str(), ssid.as_str());
        let ask = match files {
            Some(files) => {
                self.phase = Phase::Save(ssid, purpose, cleared);
                assert(in_files(files) =~= self.cfg@);
                Ask::Save(files)
            },
            None => self.proceed(says, ssid, purpose),
        };
        assert(sayings(says@) =~= sayings(old(says)@) + want.says);
        ask
    }

    fn connected(&mut self, says: &mut Vec<Say>, ssid: String, online: bool) -> (r: Ask)
        requires
            old(self).wf(),
        ensures
            final(self).wf(),
            r.wf(),
            made(
                connected(old(self)@, ssid@, online),
                final(self)@,
                old(says)@,
                final(says)@,
                r@,
            ),
    {
        let ghost want = connected(self@, ssid@, online);
        let place = ssid.as_str().to_string().concat(" (").concat(self.name.as_str());
        let line = "flow end: connected ".to_string().concat(ssid.as_str()).concat(
            " (profile=",
        ).concat(self.name.as_str());
        let n = if online {
            say_notify(
                says,
                self.quiet,
                "breadcrumbs: connected",
                place.concat(")"),
                Urgency::Low,
            );
            say_log(says, line.concat(")"));
            None
        } else {
            let t = "associated but no internet yet";
            say_notify(
                says,
                self.quiet,
                "breadcrumbs: connected (degraded)",
                place.concat(") — ").concat(t),
                Urgency::Normal,
            );
            say_log(says, line.concat(") note=").concat(t));
            Some(t.to_string())
        };
        let ask = self.finish(Outcome::Connected { ssid, note: n });
        assert(sayings(says@) =~= sayings(old(says)@) + want.says);
        ask
    }

    fn tailscale_down(
        &mut self,
        says: &mut Vec<Say>,
        health: TsHealth,
        active: &Option<String>,
    ) -> (r: Ask)
        requires
            old(self).wf(),
        ensures
            final(self).wf(),
            r.wf(),
            made(
                tailscale_down(old(self)@, health@, text::opt_view(*active)),
                final(self)@,
                old(says)@,
                final(says)@,
                r@,
            ),
    {
        let ghost want = tailscale_down(self@, health@, text::opt_view(*active));
        let ssid = match active {
            Some(a) => Some(a.clone()),
            None => text::copy_opt(&self.profile.bootstrap),
        };
        let place = match &ssid {
            Some(a) => a.clone(),
            None => "Wi-Fi".to_string(),
        };
        say_notify(
            says,
            self.quiet,
            "Tailscale Error",
            health.describe().concat(" — staying on ").concat(place.as_str()),
            Urgency::Critical,
        );
        let ask = self.finish(Outcome::TailscaleError { ssid, health });
        assert(sayings(says@) =~= sayings(old(says)@) + want.says);
        ask
    }

    fn on_interface(&mut self, says: &mut Vec<Say>, iface: Option<String>) -> (r: Ask)
        requires
            old(self).wf(),
            old(self)@.phase == PhaseModel::Interface,
        ensures
            final(self).wf(),
            r.wf(),
            made(step(old(self)@, ReplyModel::Interface(text::opt_view(iface))), final(self)@, old(says)@, final(says)@, r@),
    {
        let ghost want = step(self@, ReplyModel::Interface(text::opt_view(iface)));
        let ask = match iface {
            None => {
                say_notify(
                    says,
                    self.quiet,
                    "breadcrumbs: no Wi-Fi adapter",
                    "Hardware issue — Wi-Fi device not found. Manual check needed.".to_string(),
                    Urgency::Critical,
                );
                self.finish(Outcome::NoInterface)
            },
            Some(iface) => {
                self.iface = iface;
                self.phase = Phase::Radio;
                Ask::RadioOn
            },
        };
        assert(sayings(says@) =~= sayings(old(says)@) + want.says);
        ask
    }

    fn on_radio(&mut self, says: &mut Vec<Say>) -> (r: Ask)
        requires
            old(self).wf(),
            old(self)@.phase == PhaseModel::Radio,
        ensures
            final(self).wf(),
            r.wf(),
            made(step(old(self)@, ReplyModel::Done), final(self)@, old(says)@, final(says)@, r@),
    {
        let ghost want = step(self@, ReplyModel::Done);
        let line = "flow start: profile=".to_string().concat(self.name.as_str()).concat(
            " iface=",
        ).concat(self.iface.as_str()).concat(" tailscale=").concat(
            text_of_bool(self.profile.tailscale),
        ).concat(" candidates=[").concat(self.names().as_str()).concat("]");
        say_log(says, line);
        let ask = Ask::Rescan(self.iface.clone(), self.targets());
        self.phase = Phase::FirstScan;
        assert(sayings(says@) =~= sayings(old(says)@) + want.says);
        ask
    }

    fn on_first_scan(&mut self, says: &mut Vec<Say>) -> (r: Ask)
        requires
            old(self).wf(),
            old(self)@.phase == PhaseModel::FirstScan,
        ensures
            final(self).wf(),
            r.wf(),
            made(step(old(self)@, ReplyModel::Done), final(self)@, old(says)@, final(says)@, r@),
    {
        let ghost want = step(self@, ReplyModel::Done);
        self.phase = Phase::FirstLook;
        assert(sayings(says@) =~= sayings(old(says)@) + want.says);
        Ask::Look(self.iface.clone())
    }

    fn on_first_look(&mut self, says: &mut Vec<Say>, signals: &Vec<(String, i32)>) -> (r: Ask)
        requires
            old(self).wf(),
            old(self)@.phase == PhaseModel::FirstLook,
        ensures
            final(self).wf(),
            r.wf(),
            made(step(old(self)@, ReplyModel::Signals(backend::signal_models(signals@))), final(self)@, old(says)@, final(says)@, r@),
    {
        if self.profile.tailscale {
            self.bootstrap(says, signals)
        } else {
            self.phase = Phase::SecondLook;
            assert(sayings(says@) =~= sayings(old(says)@) + Seq::<SayModel>::empty());
            Ask::Look(self.iface.clone())
        }
    }

    fn on_connect(&mut self, says: &mut Vec<Say>, ssid: String, p: Purpose, result: Result<(), String>) -> (r: Ask)
        requires
            old(self).wf(),
            old(self)@.phase == PhaseModel::Connect(ssid@, p),
        ensures
            final(self).wf(),
            r.wf(),
            made(step(old(self)@, ReplyModel::Connected(backend::result_view(result))), final(self)@, old(says)@, final(says)@, r@),
    {
        match result {
            Ok(_) => {
                self.phase = Phase::Device(ssid, p);
                assert(sayings(says@) =~= sayings(old(says)@) + Seq::<SayModel>::empty());
                Ask::DeviceConnected(self.iface.clone())
            },
            Err(e) => self.failed(says, ssid.as_str(), p, e.as_str()),
        }
    }

    fn on_device(&mut self, says: &mut Vec<Say>, ssid: String, p: Purpose, up: bool) -> (r: Ask)
        requires
            old(self).wf(),
            old(self)@.phase == PhaseModel::Device(ssid@, p),
        ensures
            final(self).wf(),
            r.wf(),
            made(step(old(self)@, ReplyModel::Yes(up)), final(self)@, old(says)@, final(says)@, r@),
    {
        if up {
            self.phase = Phase::Active(ssid, p);
            assert(sayings(says@) =~= sayings(old(says)@) + Seq::<SayModel>::empty());
            Ask::ActiveSsid(self.iface.clone())
        } else {
            self.failed(says, ssid.as_str(), p, "device not connected after nmcli success")
        }
    }

    fn on_active(&mut self, says: &mut Vec<Say>, ssid: String, p: Purpose, active: Option<String>) -> (r: Ask)
        requires
            old(self).wf(),
            old(self)@.phase == PhaseModel::Active(ssid@, p),
        ensures
            final(self).wf(),
            r.wf(),
            made(step(old(self)@, ReplyModel::Ssid(text::opt_view(active))), final(self)@, old(says)@, final(says)@, r@),
    {
        match check_landed(&active, ssid.as_str()) {
            Ok(_) => self.joined(says, ssid, p),
            Err(e) => self.failed(says, ssid.as_str(), p, e.as_str()),
        }
    }

    fn on_saved(&mut self, says: &mut Vec<Say>, ssid: String, p: Purpose, cleared: bool, result: Result<(), String>) -> (r: Ask)
        requires
            old(self).wf(),
            old(self)@.phase == PhaseModel::Save(ssid@, p, cleared),
        ensures
            final(self).wf(),
            r.wf(),
            made(step(old(self)@, ReplyModel::Saved(backend::result_view(result))), final(self)@, old(says)@, final(says)@, r@),
    {
        let ghost want = step(self@, ReplyModel::Saved(backend::result_view(result)));
        match result {
            Ok(_) => {},
            Err(e) => {
                let what = if cleared {
                    "failed to persist cleared password for "
                } else {
                    "failed to persist learned SSID "
                };
                say_log(
                    says,
                    what.to_string().concat(ssid.as_str()).concat(": ").concat(e.as_str()),
                );
            },
        }
        let ask = self.proceed(says, ssid, p);
        assert(sayings(says@) =~= sayings(old(says)@) + want.says);
        ask
    }

    fn on_exit(&mut self, says: &mut Vec<Say>, health: TsHealth) -> (r: Ask)
        requires
            old(self).wf(),
            old(self)@.phase == PhaseModel::Exit,
        ensures
            final(self).wf(),
            r.wf(),
            made(step(old(self)@, ReplyModel::Health(health@)), final(self)@, old(says)@, final(says)@, r@),
    {
        let ghost want = step(self@, ReplyModel::Health(health@));
        let ask = if health.is_ok() {
            let nodes = self.cfg.exit_nodes_for(self.name.as_str());
            say_log(
                says,
                "tailscale healthy via exit node ".to_string().concat(
                    text::join(&nodes, ", ").as_str(),
                ),
            );
            let ask = Ask::Rescan(self.iface.clone(), self.targets());
            self.phase = Phase::SecondScan;
            ask
        } else {
            self.phase = Phase::Down(health);
            Ask::ActiveSsid(self.iface.clone())
        };
        assert(sayings(says@) =~= sayings(old(says)@) + want.says);
        ask
    }

    fn on_second_scan(&mut self, says: &mut Vec<Say>) -> (r: Ask)
        requires
            old(self).wf(),
            old(self)@.phase == PhaseModel::SecondScan,
        ensures
            final(self).wf(),
            r.wf(),
            made(step(old(self)@, ReplyModel::Done), final(self)@, old(says)@, final(says)@, r@),
    {
        let ghost want = step(self@, ReplyModel::Done);
        self.phase = Phase::SecondLook;
        assert(sayings(says@) =~= sayings(old(says)@) + want.says);
        Ask::Look(self.iface.clone())
    }

    fn on_second_look(&mut self, says: &mut Vec<Say>, signals: &Vec<(String, i32)>) -> (r: Ask)
        requires
            old(self).wf(),
            old(self)@.phase == PhaseModel::SecondLook,
        ensures
            final(self).wf(),
            r.wf(),
            made(step(old(self)@, ReplyModel::Signals(backend::signal_models(signals@))), final(self)@, old(says)@, final(says)@, r@),
    {
        self.queue = order_candidates(&self.candidates, signals);
        self.dial_next(says)
    }

    fn on_still(&mut self, says: &mut Vec<Say>, up: bool) -> (r: Ask)
        requires
            old(self).wf(),
            old(self)@.phase == PhaseModel::Still,
        ensures
            final(self).wf(),
            r.wf(),
            made(step(old(self)@, ReplyModel::Yes(up)), final(self)@, old(says)@, final(says)@, r@),
    {
        let net = if up {
            None
        } else {
            match &self.profile.bootstrap {
                Some(bs) => match self.cfg.network(bs.as_str()) {
                    Some(n) => Some(n.clone()),
                    None => None,
                },
                None => None,
            }
        };
        match net {
            Some(n) => {
                let ask = self.dial(n, Purpose::Reconnect);
                assert(sayings(says@) =~= sayings(old(says)@) + Seq::<SayModel>::empty());
                ask
            },
            None => self.stay(says),
        }
    }

    /// Takes what came of the last question, and says what is asked next.
    pub fn next(&mut self, reply: Reply, says: &mut Vec<Say>) -> (r: Ask)
        requires
            old(self).wf(),
            fits(old(self)@.phase, reply@),
        ensures
            final(self).wf(),
            r.wf(),
            made(step(old(self)@, reply@), final(self)@, old(says)@, final(says)@, r@),
    {
        match (self.phase.clone(), reply) {
            (Phase::Interface, Reply::Interface(iface)) => self.on_interface(says, iface),
            (Phase::Radio, Reply::Done) => self.on_radio(says),
            (Phase::FirstScan, Reply::Done) => self.on_first_scan(says),
            (Phase::FirstLook, Reply::Signals(v)) => self.on_first_look(says, &v),
            (Phase::Connect(ssid, p), Reply::Connected(r)) => self.on_connect(says, ssid, p, r),
            (Phase::Device(ssid, p), Reply::Yes(up)) => self.on_device(says, ssid, p, up),
            (Phase::Active(ssid, p), Reply::Ssid(active)) => self.on_active(says, ssid, p, active),
            (Phase::Save(ssid, p, cleared), Reply::Saved(r)) => self.on_saved(
                says,
                ssid,
                p,
                cleared,
                r,
            ),
            (Phase::Exit, Reply::Health(h)) => self.on_exit(says, h),
            (Phase::Down(h), Reply::Ssid(active)) => self.tailscale_down(says, h, &active),
            (Phase::SecondScan, Reply::Done) => self.on_second_scan(says),
            (Phase::SecondLook, Reply::Signals(v)) => self.on_second_look(says, &v),
            (Phase::Internet(ssid), Reply::Online(c)) => {
                let online = match c {
                    Connectivity::Online => true,
                    _ => false,
                };
                self.connected(says, ssid, online)
            },
            (Phase::Still, Reply::Yes(up)) => self.on_still(says, up),
            _ => {
                assert(false);
                self.finish(Outcome::NoNetworks)
            },
        }
    }
}

// ---- A whole run ---------------------------------------------------------

/// The question that each phase waits on.
pub open spec fn asks(phase: PhaseModel, ask: AskModel) -> bool {
    match phase {
        PhaseModel::Interface => ask is Interface,
        PhaseModel::Radio => ask is RadioOn,
        PhaseModel::FirstScan | PhaseModel::SecondScan => ask is Rescan,
        PhaseModel::FirstLook | PhaseModel::SecondLook => ask is Look,
        PhaseModel::Connect(..) => ask is Connect,
        PhaseModel::Device(..) | PhaseModel::Still => ask is DeviceConnected,
        PhaseModel::Active(..) | PhaseModel::Down(_) => ask is ActiveSsid,
        PhaseModel::Save(..) => ask is Save,
        PhaseModel::Exit => ask is EnsureExitNode,
        PhaseModel::Internet(_) => ask is Internet,
        PhaseModel::Finished => ask is Finish,
    }
}

/// Why a network is being dialed, while one is.
pub open spec fn purpose_of(phase: PhaseModel) -> Option<Purpose> {
    match phase {
        PhaseModel::Connect(_, p) => Some(p),
        PhaseModel::Device(_, p) => Some(p),
        PhaseModel::Active(_, p) => Some(p),
        PhaseModel::Save(_, p, _) => Some(p),
        _ => None,
    }
}

/// How far a phase is from the end; dialing candidates is one stage.
pub open spec fn stage(phase: PhaseModel) -> nat {
    match phase {
        PhaseModel::Interface => 12,
        PhaseModel::Radio => 11,
        PhaseModel::FirstScan => 10,
        PhaseModel::FirstLook => 9,
        PhaseModel::Connect(..) | PhaseModel::Device(..) | PhaseModel::Active(
            ..,
        ) | PhaseModel::Save(..) => match purpose_of(phase) {
            Some(Purpose::Bootstrap) => 8,
            Some(Purpose::Candidate(_)) => 4,
            _ => 1,
        },
        PhaseModel::Exit => 7,
        PhaseModel::Down(_) => 6,
        PhaseModel::SecondScan => 6,
        PhaseModel::SecondLook => 5,
        PhaseModel::Internet(_) => 3,
        PhaseModel::Still => 2,
        PhaseModel::Finished => 0,
    }
}

/// How far a dialed network is from being done with.
pub open spec fn substage(phase: PhaseModel) -> nat {
    match phase {
        PhaseModel::Connect(..) => 3,
        PhaseModel::Device(..) => 2,
        PhaseModel::Active(..) => 1,
        _ => 0,
    }
}

/// A step that asks what its new phase waits on and is closer to the end than
/// this phase with this many networks to dial.
pub open spec fn closer(t: StepModel, phase: PhaseModel, queue: nat) -> bool {
    &&& asks(t.state.phase, t.ask)
    &&& {
        ||| stage(t.state.phase) < stage(phase)
        ||| stage(t.state.phase) == stage(phase) && t.state.queue.len() < queue
        ||| stage(t.state.phase) == stage(phase) && t.state.queue.len() == queue && substage(
            t.state.phase,
        ) < substage(phase)
    }
}

proof fn lemma_dial_next(s: FlowModel, phase: PhaseModel)
    requires
        stage(phase) >= 4,
        stage(phase) == 4 ==> phase is Connect || phase is Device || phase is Active,
    ensures
        closer(dial_next(s), phase, s.queue.len()),
{
}

proof fn lemma_failed(s: FlowModel, ssid: Seq<char>, purpose: Purpose, e: Seq<char>)
    requires
        purpose_of(s.phase) == Some(purpose),
        !(s.phase is Save),
    ensures
        closer(failed(s, ssid, purpose, e), s.phase, s.queue.len()),
{
    match purpose {
        Purpose::Candidate(_) => lemma_dial_next(s, s.phase),
        _ => {},
    }
}

proof fn lemma_proceed(s: FlowModel, ssid: Seq<char>, purpose: Purpose, phase: PhaseModel)
    requires
        purpose_of(phase) == Some(purpose),
        phase is Active || phase is Save,
    ensures
        closer(proceed(s, ssid, purpose), phase, s.queue.len()),
{
}

proof fn lemma_joined(s: FlowModel, ssid: Seq<char>, purpose: Purpose)
    requires
        purpose_of(s.phase) == Some(purpose),
        s.phase is Active,
    ensures
        closer(joined(s, ssid, purpose), s.phase, s.queue.len()),
{
    let s2 = FlowModel {
        cfg: after_join(s.cfg, s.name, ssid),
        on_bootstrap: s.on_bootstrap || purpose == Purpose::Bootstrap,
        ..s
    };
    lemma_proceed(s2, ssid, purpose, s.phase);
}

/// Each step brings the flow closer to its end and asks what the new phase
/// waits on.
proof fn lemma_step(s: FlowModel, reply: ReplyModel)
    requires
        fits(s.phase, reply),
    ensures
        closer(step(s, reply), s.phase, s.queue.len()),
{
    match (s.phase, reply) {
        (PhaseModel::Connect(ssid, p), ReplyModel::Connected(r)) => {
            match r {
                Ok(_) => {},
                Err(e) => lemma_failed(s, ssid, p, e),
            }
        },
        (PhaseModel::Device(ssid, p), ReplyModel::Yes(up)) => {
            lemma_failed(s, ssid, p, "device not connected after nmcli success"@);
        },
        (PhaseModel::Active(ssid, p), ReplyModel::Ssid(active)) => {
            match landed(active, ssid) {
                Ok(_) => lemma_joined(s, ssid, p),
                Err(e) => lemma_failed(s, ssid, p, e),
            }
        },
        (PhaseModel::Save(ssid, p, cleared), ReplyModel::Saved(r)) => {
            lemma_proceed(s, ssid, p, s.phase);
        },
        (PhaseModel::SecondLook, ReplyModel::Signals(v)) => {
            let s2 = FlowModel { queue: dial_order(s.candidates, v), ..s };
            lemma_dial_next(s2, s.phase);
        },
        _ => {},
    }
}

/// With these replies the flow ends so, from this state and question on.
pub open spec fn ends(
    s: FlowModel,
    ask: AskModel,
    replies: Seq<ReplyModel>,
    outcome: OutcomeModel,
    cfg: ConfigModel,
) -> bool
    decreases replies.len(),
{
    match ask {
        AskModel::Finish(o) => replies.len() == 0 && o == outcome && s.cfg == cfg,
        _ => {
            &&& replies.len() > 0
            &&& fits(s.phase, replies[0])
            &&& ends(
                step(s, replies[0]).state,
                step(s, replies[0]).ask,
                replies.drop_first(),
                outcome,
                cfg,
            )
        },
    }
}

/// `reply` may come of this question, put to this backend.
pub open spec fn may_answer<B: Backend>(b: &B, s: FlowModel, ask: AskModel, reply: ReplyModel) -> bool {
    match (ask, reply) {
        (AskModel::Interface(p), ReplyModel::Interface(i)) => backend::gives_interface(b, p, i),
        (AskModel::RadioOn, ReplyModel::Done) => call_ensures(B::radio_on, (b,), ()),
        (AskModel::Rescan(i, t), ReplyModel::Done) => backend::rescanned(b, i, t),
        (AskModel::Look(i), ReplyModel::Signals(v)) => backend::sees(b, i, v),
        (AskModel::Connect { iface, net, wait, dns }, ReplyModel::Connected(r)) =>
            backend::connects(b, iface, net, wait, dns, r),
        (AskModel::DeviceConnected(i), ReplyModel::Yes(up)) => backend::tells_connected(b, i, up),
        (AskModel::ActiveSsid(i), ReplyModel::Ssid(a)) => backend::names_active(b, i, a),
        (AskModel::EnsureExitNode(n), ReplyModel::Health(h)) => backend::ensures_exit_node(b, n, h),
        (AskModel::Internet, ReplyModel::Online(c)) => backend::probes(b, s.cfg, c),
        (AskModel::Save(cfg), ReplyModel::Saved(r)) => backend::saves(b, cfg, r),
        _ => false,
    }
}

/// All of this may have been said through this backend.
pub open spec fn may_say<B: Backend>(b: &B, says: Seq<SayModel>) -> bool {
    forall|i: int|
        0 <= i < says.len() ==> match #[trigger] says[i] {
            SayModel::Log(l) => backend::logs(b, l),
            SayModel::Notify(t, d, u) => backend::shows(b, t, d, u),
        }
}

/// The replies may come of the questions of a flow, one by one, and what it says
/// on the way may have been said.
pub open spec fn may_go<B: Backend>(
    b: &B,
    s: FlowModel,
    ask: AskModel,
    replies: Seq<ReplyModel>,
) -> bool
    decreases replies.len(),
{
    if replies.len() == 0 {
        true
    } else {
        let t = step(s, replies[0]);
        &&& may_answer(b, s, ask, replies[0])
        &&& may_say(b, t.says)
        &&& may_go(b, t.state, t.ask, replies.drop_first())
    }
}

/// Running the flow for the profile `name` may turn `before` into `after` and
/// end with this outcome, when this backend gives the replies.
pub open spec fn may_run<B: Backend>(
    b: &B,
    before: ConfigModel,
    name: Seq<char>,
    quiet: bool,
    outcome: OutcomeModel,
    after: ConfigModel,
) -> bool {
    let first = start(before, name, quiet);
    exists|replies: Seq<ReplyModel>|
        {
            &&& #[trigger] ends(first.state, first.ask, replies, outcome, after)
            &&& may_say(b, first.says)
            &&& may_go(b, first.state, first.ask, replies)
        }
}

fn put<B: Backend>(b: &B, flow: &Flow, ask: &Ask) -> (r: Reply)
    requires
        ask.wf(),
        !(ask@ is Finish),
    ensures
        may_answer(b, flow@, ask@, r@),
        forall|phase: PhaseModel| #[trigger] asks(phase, ask@) ==> fits(phase, r@),
{
    match ask {
        Ask::Interface(p) => {
            let preferred = match p {
                Some(p) => Some(p.as_str()),
                None => None,
            };
            Reply::Interface(b.wifi_interface(preferred))
        },
        Ask::RadioOn => {
            b.radio_on();
            Reply::Done
        },
        Ask::Rescan(iface, targets) => {
            b.rescan(iface.as_str(), targets.as_slice());
            Reply::Done
        },
        Ask::Look(iface) => Reply::Signals(b.visible_signals(iface.as_str())),
        Ask::Connect { iface, net, wait, dns } => {
            let r = b.connect(iface.as_str(), net, *wait, dns.as_str());
            assert(backend::connects(
                b,
                iface@,
                net@,
                *wait,
                dns@,
                backend::result_view(r),
            ));
            Reply::Connected(r)
        },
        Ask::DeviceConnected(iface) => Reply::Yes(b.device_connected(iface.as_str())),
        Ask::ActiveSsid(iface) => Reply::Ssid(b.active_ssid(iface.as_str())),
        Ask::EnsureExitNode(nodes) => Reply::Health(b.ensure_exit_node(nodes.as_slice())),
        Ask::Internet => Reply::Online(b.connectivity(flow.config())),
        Ask::Save(files) => {
            let r = b.save(files);
            assert(files.main@ =~= ConfigModel { networks: Seq::empty(), ..in_files(*files) });
            assert(backend::saves(b, in_files(*files), backend::result_view(r)));
            Reply::Saved(r)
        },
        Ask::Finish(_) => Reply::Done,
    }
}

fn tell<B: Backend>(b: &B, says: &Vec<Say>)
    ensures
        may_say(b, sayings(says@)),
{
    let mut i: usize = 0;
    let ghost all = sayings(says@);
    while i < says.len()
        invariant
            i <= says@.len(),
            all == sayings(says@),
            may_say(b, all.take(i as int)),
        decreases says@.len() - i,
    {
        match &says[i] {
            Say::Log(l) => {
                b.log(l.as_str());
                assert(backend::logs(b, l@));
            },
            Say::Notify(s, t, u) => {
                b.notify(s.as_str(), t.as_str(), *u);
                assert(backend::shows(b, s@, t@, *u));
            },
        }
        assert(all[i as int] == says@[i as int]@);
        assert(all.take(i + 1) =~= all.take(i as int).push(all[i as int]));
        i += 1;
    }
    assert(all.take(i as int) =~= all);
}

fn go<B: Backend>(b: &B, flow: &mut Flow, ask: Ask) -> (r: Outcome)
    requires
        old(flow).wf(),
        ask.wf(),
        asks(old(flow)@.phase, ask@),
    ensures
        final(flow).wf(),
        exists|replies: Seq<ReplyModel>|
            {
                &&& #[trigger] ends(old(flow)@, ask@, replies, r@, final(flow)@.cfg)
                &&& may_go(b, old(flow)@, ask@, replies)
            },
    decreases stage(old(flow)@.phase), old(flow)@.queue.len(), substage(old(flow)@.phase),
{
    let ghost s = flow@;
    match ask {
        Ask::Finish(outcome) => {
            assert(ends(s, ask@, Seq::empty(), outcome@, s.cfg));
            outcome
        },
        _ => {
            let reply = put(b, flow, &ask);
            let ghost m = reply@;
            assert(fits(s.phase, m));
            proof {
                lemma_step(s, m);
            }
            let mut says: Vec<Say> = Vec::new();
            assert(sayings(says@) =~= Seq::<SayModel>::empty());
            let following = flow.next(reply, &mut says);
            assert(sayings(says@) =~= step(s, m).says);
            tell(b, &says);
            let ghost t = flow@;
            let ghost a = following@;
            let r = go(b, flow, following);
            proof {
                let rest = choose|replies: Seq<ReplyModel>|
                    {
                        &&& #[trigger] ends(t, a, replies, r@, flow@.cfg)
                        &&& may_go(b, t, a, replies)
                    };
                let replies = seq![m] + rest;
                assert(replies.drop_first() =~= rest);
                assert(ends(s, ask@, replies, r@, flow@.cfg));
            }
            r
        },
    }
}

fn run_flow<B: Backend>(b: &B, cfg: &mut Config, profile_name: &str, quiet: bool) -> (r: Outcome)
    requires
        old(cfg).wf(),
    ensures
        final(cfg).wf(),
        may_run(b, old(cfg)@, profile_name@, quiet, r@, final(cfg)@),
{
    let mut says: Vec<Say> = Vec::new();
    assert(sayings(says@) =~= Seq::<SayModel>::empty());
    let (mut flow, ask) = Flow::start(cfg.clone(), profile_name, quiet, &mut says);
    let ghost first = start(cfg@, profile_name@, quiet);
    assert(sayings(says@) =~= first.says);
    tell(b, &says);
    let outcome = go(b, &mut flow, ask);
    *cfg = flow.into_config();
    outcome
}

/// After a connect that succeeded, asking the device where it is may tell this.
pub open spec fn settles<B: Backend>(
    b: &B,
    iface: Seq<char>,
    ssid: Seq<char>,
    result: Result<(), Seq<char>>,
) -> bool {
    exists|up: bool| #[trigger]
        backend::tells_connected(b, iface, up) && if up {
            exists|active: Option<Seq<char>>| #[trigger]
                backend::names_active(b, iface, active) && result == landed(active, ssid)
        } else {
            result == Err::<(), Seq<char>>("device not connected after nmcli success"@)
        }
}

/// Connecting to `net` and making sure of it may end so.
pub open spec fn verifies<B: Backend>(
    b: &B,
    iface: Seq<char>,
    net: NetworkModel,
    cfg: ConfigModel,
    result: Result<(), Seq<char>>,
) -> bool {
    exists|c: Result<(), Seq<char>>| #[trigger]
        backend::connects(
            b,
            iface,
            net,
            cfg.settings.connect_wait,
            config::dns_for(net, cfg.settings.dns),
            c,
        ) && match c {
            Ok(_) => settles(b, iface, net.ssid, result),
            Err(e) => result == Err::<(), Seq<char>>(e),
        }
}

/// Connects to `def` and makes sure of it: the device has to be connected, and
/// not to another network.
pub fn connect_and_verify<B: Backend>(b: &B, iface: &str, def: &NetworkDef, cfg: &Config) -> (r:
    Result<(), String>)
    ensures
        verifies(b, iface@, def@, cfg@, backend::result_view(r)),
{
    let dns = def.effective_dns(cfg.settings.dns.as_str());
    let c = b.connect(iface, def, cfg.settings.connect_wait, dns);
    assert(backend::connects(
        b,
        iface@,
        def@,
        cfg@.settings.connect_wait,
        config::dns_for(def@, cfg@.settings.dns),
        backend::result_view(c),
    ));
    match c {
        Err(e) => {
            return Err(e);
        },
        Ok(_) => {},
    }
    let up = b.device_connected(iface);
    assert(backend::tells_connected(b, iface@, up));
    if !up {
        let r = Err("device not connected after nmcli success".to_string());
        assert(settles(b, iface@, def.ssid@, backend::result_view(r)));
        return r;
    }
    let active = b.active_ssid(iface);
    assert(backend::names_active(b, iface@, text::opt_view(active)));
    let r = check_landed(&active, def.ssid.as_str());
    assert(settles(b, iface@, def.ssid@, backend::result_view(r)));
    r
}

/// Run the connection state machine for `profile_name`. A network that was
/// joined with a local password has it cleared in `cfg`, and that is saved at
/// once.
pub fn run<B: Backend>(b: &B, cfg: &mut Config, profile_name: &str) -> (r: Outcome)
    requires
        old(cfg).wf(),
    ensures
        final(cfg).wf(),
        may_run(b, old(cfg)@, profile_name@, false, r@, final(cfg)@),
{
    run_flow(b, cfg, profile_name, false)
}

/// Like [`run`], but without desktop notifications; their entries in the log
/// stay.
pub fn run_quiet<B: Backend>(b: &B, cfg: &mut Config, profile_name: &str) -> (r: Outcome)
    requires
        old(cfg).wf(),
    ensures
        final(cfg).wf(),
        may_run(b, old(cfg)@, profile_name@, true, r@, final(cfg)@),
{
    run_flow(b, cfg, profile_name, true)
}

// ---- What holds of every run ---------------------------------------------

/// An unknown profile ends the flow before anything is asked of the outside
/// world, and leaves the configuration alone.
pub proof fn an_unknown_profile_asks_nothing(
    cfg: ConfigModel,
    name: Seq<char>,
    quiet: bool,
    replies: Seq<ReplyModel>,
    outcome: OutcomeModel,
    after: ConfigModel,
)
    requires
        !cfg.profiles.contains_key(name),
        ends(start(cfg, name, quiet).state, start(cfg, name, quiet).ask, replies, outcome, after),
    ensures
        replies.len() == 0,
        outcome == OutcomeModel::UnknownProfile(name),
        after == cfg,
{
}

/// Nothing in this is a notification.
pub open spec fn no_notification(says: Seq<SayModel>) -> bool {
    forall|i: int| 0 <= i < says.len() ==> (#[trigger] says[i]) is Log
}

proof fn lemma_quiet_parts(a: Seq<SayModel>, b: Seq<SayModel>)
    requires
        no_notification(a),
        no_notification(b),
    ensures
        no_notification(a + b),
{
    assert forall|i: int| 0 <= i < (a + b).len() implies (#[trigger] (a + b)[i]) is Log by {
        if i < a.len() {
            assert((a + b)[i] == a[i]);
        } else {
            assert((a + b)[i] == b[i - a.len()]);
        }
    }
}

proof fn lemma_quiet_ends(s: FlowModel)
    requires
        s.quiet,
    ensures
        no_notification(no_networks(s).says),
        no_notification(stay(s).says),
        no_notification(dial_next(s).says),
{
}

proof fn lemma_quiet_failed(s: FlowModel, ssid: Seq<char>, purpose: Purpose, e: Seq<char>)
    requires
        s.quiet,
    ensures
        no_notification(failed(s, ssid, purpose, e).says),
{
    let first = note(failure_line(ssid, purpose, e));
    let s2 = FlowModel { on_bootstrap: false, ..s };
    lemma_quiet_ends(s);
    lemma_quiet_ends(s2);
    lemma_quiet_parts(first, ask_exit(s).says);
    lemma_quiet_parts(first, dial_next(s).says);
    lemma_quiet_parts(first, no_networks(s2).says);
}

proof fn lemma_quiet_joined(s: FlowModel, ssid: Seq<char>, purpose: Purpose)
    requires
        s.quiet,
    ensures
        no_notification(joined(s, ssid, purpose).says),
        no_notification(proceed(s, ssid, purpose).says),
{
    lemma_quiet_ends(s);
    let s2 = FlowModel {
        cfg: after_join(s.cfg, s.name, ssid),
        on_bootstrap: s.on_bootstrap || purpose == Purpose::Bootstrap,
        ..s
    };
    lemma_quiet_ends(s2);
    let says = match purpose {
        Purpose::Bootstrap => note("bootstrap connected: "@ + ssid),
        Purpose::Candidate(_) => Seq::empty(),
        Purpose::Reconnect => note("bootstrap reconnected: "@ + ssid),
    };
    lemma_quiet_parts(says, proceed(s2, ssid, purpose).says);
}

/// A quiet flow shows no notification, from its start to its end.
pub proof fn a_quiet_flow_shows_nothing(
    cfg: ConfigModel,
    name: Seq<char>,
    s: FlowModel,
    reply: ReplyModel,
)
    requires
        s.quiet,
        fits(s.phase, reply),
    ensures
        no_notification(start(cfg, name, true).says),
        start(cfg, name, true).state.quiet,
        no_notification(step(s, reply).says),
        step(s, reply).state.quiet,
{
    lemma_step_frame(s, reply);
    match (s.phase, reply) {
        (PhaseModel::Connect(ssid, p), ReplyModel::Connected(r)) => {
            match r {
                Ok(_) => {},
                Err(e) => lemma_quiet_failed(s, ssid, p, e),
            }
        },
        (PhaseModel::Device(ssid, p), ReplyModel::Yes(up)) => {
            lemma_quiet_failed(s, ssid, p, "device not connected after nmcli success"@);
        },
        (PhaseModel::Active(ssid, p), ReplyModel::Ssid(active)) => {
            match landed(active, ssid) {
                Ok(_) => lemma_quiet_joined(s, ssid, p),
                Err(e) => lemma_quiet_failed(s, ssid, p, e),
            }
        },
        (PhaseModel::Save(ssid, p, cleared), ReplyModel::Saved(r)) => {
            lemma_quiet_joined(s, ssid, p);
            match r {
                Ok(_) => {},
                Err(e) => lemma_quiet_parts(
                    note(unsaved_line(ssid, cleared, e)),
                    proceed(s, ssid, p).says,
                ),
            }
        },
        (PhaseModel::SecondLook, ReplyModel::Signals(v)) => {
            lemma_quiet_ends(FlowModel { queue: dial_order(s.candidates, v), ..s });
        },
        (PhaseModel::Still, ReplyModel::Yes(up)) => lemma_quiet_ends(s),
        _ => {},
    }
}

/// The SSID that is joined when this reply comes, where one is.
pub open spec fn joins(s: FlowModel, reply: ReplyModel) -> Option<Seq<char>> {
    match (s.phase, reply) {
        (PhaseModel::Active(ssid, _), ReplyModel::Ssid(active)) => if landed(active, ssid) is Ok {
            Some(ssid)
        } else {
            None
        },
        _ => None,
    }
}

/// What a step leaves as it is: all but the place, and the configuration only
/// when a network is joined.
proof fn lemma_step_frame(s: FlowModel, reply: ReplyModel)
    requires
        fits(s.phase, reply),
    ensures
        ({
            let t = step(s, reply).state;
            &&& t.name == s.name
            &&& t.quiet == s.quiet
            &&& t.profile == s.profile
            &&& t.candidates == s.candidates
            &&& t.cfg == (match joins(s, reply) {
                Some(ssid) => after_join(s.cfg, s.name, ssid),
                None => s.cfg,
            })
        }),
{
    match (s.phase, reply) {
        (PhaseModel::Connect(ssid, p), ReplyModel::Connected(r)) => {
            match r {
                Ok(_) => {},
                Err(e) => {
                    assert(failed(s, ssid, p, e).state.cfg == s.cfg);
                },
            }
        },
        (PhaseModel::Device(ssid, p), ReplyModel::Yes(up)) => {
            let e = "device not connected after nmcli success"@;
            assert(failed(s, ssid, p, e).state.cfg == s.cfg);
        },
        (PhaseModel::Active(ssid, p), ReplyModel::Ssid(active)) => {
            match landed(active, ssid) {
                Ok(_) => {
                    assert(joined(s, ssid, p).state.cfg == after_join(s.cfg, s.name, ssid));
                },
                Err(e) => {
                    assert(failed(s, ssid, p, e).state.cfg == s.cfg);
                },
            }
        },
        _ => {},
    }
}

/// The network with this SSID is joined somewhere in this run.
pub open spec fn joined_in(s: FlowModel, replies: Seq<ReplyModel>, ssid: Seq<char>) -> bool
    decreases replies.len(),
{
    if replies.len() == 0 {
        false
    } else {
        joins(s, replies[0]) == Some(ssid) || joined_in(
            step(s, replies[0]).state,
            replies.drop_first(),
            ssid,
        )
    }
}

/// What is kept of a network depends on whether it was joined: one that was not
/// is as it was before, with its password; of one that was, no password is left.
pub proof fn a_password_goes_exactly_when_its_network_is_joined(
    s: FlowModel,
    ask: AskModel,
    replies: Seq<ReplyModel>,
    outcome: OutcomeModel,
    after: ConfigModel,
    ssid: Seq<char>,
)
    requires
        ends(s, ask, replies, outcome, after),
    ensures
        joined_in(s, replies, ssid) ==> !has_password(after.networks, ssid),
        !joined_in(s, replies, ssid) ==> config::network_in(after.networks, ssid)
            == config::network_in(s.cfg.networks, ssid),
    decreases replies.len(),
{
    if !(ask is Finish) {
        let r = replies[0];
        let t = step(s, r);
        lemma_step_frame(s, r);
        a_password_goes_exactly_when_its_network_is_joined(
            t.state,
            t.ask,
            replies.drop_first(),
            outcome,
            after,
            ssid,
        );
        match joins(s, r) {
            Some(x) => joining_clears_only_that_password(s.cfg, s.name, x, ssid),
            None => {},
        }
    }
}

/// What a dialed network is, by the place of the flow.
pub open spec fn dialed(phase: PhaseModel) -> Option<Seq<char>> {
    match phase {
        PhaseModel::Connect(s, _) => Some(s),
        PhaseModel::Device(s, _) => Some(s),
        PhaseModel::Active(s, _) => Some(s),
        PhaseModel::Save(s, _, _) => Some(s),
        _ => None,
    }
}

/// What is dialed to bootstrap is the bootstrap network, and only a flow with
/// one is on it.
pub open spec fn on_course(s: FlowModel) -> bool {
    &&& s.on_bootstrap ==> s.profile.bootstrap is Some
    &&& (purpose_of(s.phase) == Some(Purpose::Bootstrap) || purpose_of(s.phase) == Some(
        Purpose::Reconnect,
    )) ==> s.profile.bootstrap is Some && dialed(s.phase) == s.profile.bootstrap
    &&& (purpose_of(s.phase) == Some(Purpose::Reconnect) || s.phase is Still) ==> s.on_bootstrap
    &&& (s.phase matches PhaseModel::Save(_, p, _) ==> p == Purpose::Bootstrap ==> s.on_bootstrap)
}

/// The network with this SSID has been joined by now.
pub open spec fn has_joined(s: FlowModel, ssid: Seq<char>) -> bool {
    ||| s.phase == PhaseModel::Internet(ssid)
    ||| s.phase is Save && dialed(s.phase) == Some(ssid)
    ||| s.on_bootstrap && s.profile.bootstrap == Some(ssid)
}

proof fn lemma_dialed_network(nets: Seq<NetworkModel>, bs: Seq<char>)
    ensures
        config::network_in(nets, bs) matches Some(n) ==> n.ssid == bs,
{
    text::lemma_first_index(config::ssids(nets), bs);
}

proof fn lemma_course_dial_next(s: FlowModel)
    requires
        s.on_bootstrap ==> s.profile.bootstrap is Some,
    ensures
        on_course(dial_next(s).state),
        dial_next(s).ask matches AskModel::Finish(o) ==> !(o is Connected),
        forall|x: Seq<char>| #[trigger]
            has_joined(dial_next(s).state, x) ==> s.on_bootstrap && s.profile.bootstrap == Some(x),
{
}

proof fn lemma_course_failed(s: FlowModel, ssid: Seq<char>, p: Purpose, e: Seq<char>)
    requires
        on_course(s),
        purpose_of(s.phase) == Some(p),
    ensures
        on_course(failed(s, ssid, p, e).state),
        failed(s, ssid, p, e).ask matches AskModel::Finish(o) ==> !(o is Connected),
        forall|x: Seq<char>| #[trigger]
            has_joined(failed(s, ssid, p, e).state, x) ==> s.on_bootstrap && s.profile.bootstrap
                == Some(x),
{
    lemma_course_dial_next(s);
}

proof fn lemma_course_proceed(s: FlowModel, ssid: Seq<char>, p: Purpose)
    requires
        p is Candidate || s.on_bootstrap,
        s.on_bootstrap ==> s.profile.bootstrap is Some,
        !(p is Candidate) ==> s.profile.bootstrap == Some(ssid),
    ensures
        on_course(proceed(s, ssid, p).state),
        proceed(s, ssid, p).ask matches AskModel::Finish(o) ==> (o matches OutcomeModel::Connected {
            ssid: x,
            ..
        } ==> x == ssid),
        forall|x: Seq<char>| #[trigger]
            has_joined(proceed(s, ssid, p).state, x) ==> x == ssid || s.on_bootstrap
                && s.profile.bootstrap == Some(x),
{
}

/// One step keeps the course, and whatever is then joined was joined before or
/// is joined by this step; the same goes for where a flow ends connected.
proof fn lemma_course(s: FlowModel, reply: ReplyModel, x: Seq<char>)
    requires
        on_course(s),
        fits(s.phase, reply),
    ensures
        on_course(step(s, reply).state),
        has_joined(step(s, reply).state, x) ==> has_joined(s, x) || joins(s, reply) == Some(x),
        step(s, reply).ask matches AskModel::Finish(o) ==> (o matches OutcomeModel::Connected {
            ssid: y,
            ..
        } ==> y == x ==> has_joined(s, x) || joins(s, reply) == Some(x)),
{
    match (s.phase, reply) {
        (PhaseModel::FirstLook, ReplyModel::Signals(v)) => {
            match s.profile.bootstrap {
                Some(bs) => lemma_dialed_network(s.cfg.networks, bs),
                None => {},
            }
        },
        (PhaseModel::Connect(ssid, p), ReplyModel::Connected(r)) => {
            match r {
                Ok(_) => {},
                Err(e) => lemma_course_failed(s, ssid, p, e),
            }
        },
        (PhaseModel::Device(ssid, p), ReplyModel::Yes(up)) => {
            lemma_course_failed(s, ssid, p, "device not connected after nmcli success"@);
        },
        (PhaseModel::Active(ssid, p), ReplyModel::Ssid(active)) => {
            match landed(active, ssid) {
                Ok(_) => {
                    let s2 = FlowModel {
                        cfg: after_join(s.cfg, s.name, ssid),
                        on_bootstrap: s.on_bootstrap || p == Purpose::Bootstrap,
                        ..s
                    };
                    lemma_course_proceed(s2, ssid, p);
                },
                Err(e) => lemma_course_failed(s, ssid, p, e),
            }
        },
        (PhaseModel::Save(ssid, p, cleared), ReplyModel::Saved(r)) => {
            lemma_course_proceed(s, ssid, p);
        },
        (PhaseModel::SecondLook, ReplyModel::Signals(v)) => {
            lemma_course_dial_next(FlowModel { queue: dial_order(s.candidates, v), ..s });
        },
        (PhaseModel::Still, ReplyModel::Yes(up)) => {
            match s.profile.bootstrap {
                Some(bs) => lemma_dialed_network(s.cfg.networks, bs),
                None => {},
            }
        },
        _ => {},
    }
}

proof fn lemma_connected_means_joined(
    s: FlowModel,
    ask: AskModel,
    replies: Seq<ReplyModel>,
    ssid: Seq<char>,
    n: Option<Seq<char>>,
    after: ConfigModel,
)
    requires
        on_course(s),
        !(ask is Finish),
        ends(s, ask, replies, OutcomeModel::Connected { ssid, note: n }, after),
    ensures
        has_joined(s, ssid) || joined_in(s, replies, ssid),
    decreases replies.len(),
{
    let r = replies[0];
    let t = step(s, r);
    lemma_course(s, r, ssid);
    reveal_with_fuel(ends, 2);
    if !(t.ask is Finish) {
        lemma_connected_means_joined(t.state, t.ask, replies.drop_first(), ssid, n, after);
    }
}

/// A flow that ends connected has joined the network it names: the connect
/// succeeded, the device was then connected, and not to another network.
pub proof fn connected_means_joined(
    cfg: ConfigModel,
    name: Seq<char>,
    quiet: bool,
    replies: Seq<ReplyModel>,
    ssid: Seq<char>,
    n: Option<Seq<char>>,
    after: ConfigModel,
)
    requires
        ends(
            start(cfg, name, quiet).state,
            start(cfg, name, quiet).ask,
            replies,
            OutcomeModel::Connected { ssid, note: n },
            after,
        ),
    ensures
        joined_in(start(cfg, name, quiet).state, replies, ssid),
{
    let first = start(cfg, name, quiet);
    if !(first.ask is Finish) {
        lemma_connected_means_joined(first.state, first.ask, replies, ssid, n, after);
    }
}

/// With Tailscale required and no exit node up yet.
spec fn gated(s: FlowModel) -> bool {
    &&& s.profile.tailscale
    &&& stage(s.phase) >= 7 || s.phase is Down
    &&& s.phase matches PhaseModel::Down(h) ==> !(h is Healthy)
}

/// Until an exit node is healthy, only the bootstrap network is dialed, and the
/// flow ends only in a Tailscale error or for want of an interface.
proof fn lemma_gated_step(s: FlowModel, reply: ReplyModel)
    requires
        gated(s),
        fits(s.phase, reply),
        reply != ReplyModel::Health(HealthModel::Healthy),
    ensures
        ({
            let t = step(s, reply);
            ||| gated(t.state) && (t.ask matches AskModel::Connect { .. } ==> purpose_of(
                t.state.phase,
            ) == Some(Purpose::Bootstrap))
            ||| t.ask == AskModel::Finish(OutcomeModel::NoInterface)
            ||| t.ask matches AskModel::Finish(OutcomeModel::TailscaleError { health, .. })
                && !(health is Healthy)
        }),
{
    lemma_step_frame(s, reply);
    match (s.phase, reply) {
        (PhaseModel::Connect(ssid, p), ReplyModel::Connected(r)) => {
            match r {
                Ok(_) => {},
                Err(e) => {
                    assert(failed(s, ssid, p, e).state.phase is Exit);
                },
            }
        },
        (PhaseModel::Device(ssid, p), ReplyModel::Yes(up)) => {
            assert(failed(
                s,
                ssid,
                p,
                "device not connected after nmcli success"@,
            ).state.phase is Exit);
        },
        (PhaseModel::Active(ssid, p), ReplyModel::Ssid(active)) => {
            match landed(active, ssid) {
                Ok(_) => {
                    let t = joined(s, ssid, p).state;
                    assert(t.phase is Exit || t.phase is Save);
                },
                Err(e) => {
                    assert(failed(s, ssid, p, e).state.phase is Exit);
                },
            }
        },
        _ => {},
    }
}

proof fn lemma_gated_run(
    s: FlowModel,
    ask: AskModel,
    replies: Seq<ReplyModel>,
    outcome: OutcomeModel,
    after: ConfigModel,
)
    requires
        gated(s),
        !(ask is Finish),
        ends(s, ask, replies, outcome, after),
        forall|i: int|
            0 <= i < replies.len() ==> #[trigger] replies[i] != ReplyModel::Health(
                HealthModel::Healthy,
            ),
    ensures
        outcome is NoInterface || (outcome matches OutcomeModel::TailscaleError { health, .. }
            && !(health is Healthy)),
    decreases replies.len(),
{
    let r = replies[0];
    lemma_gated_step(s, r);
    let t = step(s, r);
    let rest = replies.drop_first();
    reveal_with_fuel(ends, 2);
    if !(t.ask is Finish) {
        assert forall|i: int| 0 <= i < rest.len() implies #[trigger] rest[i] != ReplyModel::Health(
            HealthModel::Healthy,
        ) by {
            assert(rest[i] == replies[i + 1]);
        }
        lemma_gated_run(t.state, t.ask, rest, outcome, after);
    }
}

/// Each of these replies is of the kind that the flow then waits for.
pub open spec fn accepted(s: FlowModel, replies: Seq<ReplyModel>) -> bool
    decreases replies.len(),
{
    replies.len() == 0 || fits(s.phase, replies[0]) && accepted(
        step(s, replies[0]).state,
        replies.drop_first(),
    )
}

/// The question that stands after these replies.
pub open spec fn asked_after(s: FlowModel, ask: AskModel, replies: Seq<ReplyModel>) -> AskModel
    decreases replies.len(),
{
    if replies.len() == 0 {
        ask
    } else {
        asked_after(step(s, replies[0]).state, step(s, replies[0]).ask, replies.drop_first())
    }
}

proof fn lemma_gated_dial(s: FlowModel, ask: AskModel, replies: Seq<ReplyModel>)
    requires
        gated(s),
        on_course(s),
        ask matches AskModel::Connect { net, .. } ==> s.phase == PhaseModel::Connect(
            net.ssid,
            Purpose::Bootstrap,
        ),
        accepted(s, replies),
        forall|i: int|
            0 <= i < replies.len() ==> #[trigger] replies[i] != ReplyModel::Health(
                HealthModel::Healthy,
            ),
    ensures
        asked_after(s, ask, replies) matches AskModel::Connect { net, .. } ==> s.profile.bootstrap
            == Some(net.ssid),
    decreases replies.len(),
{
    if replies.len() > 0 {
        let r = replies[0];
        let t = step(s, r);
        let rest = replies.drop_first();
        lemma_gated_step(s, r);
        lemma_step(s, r);
        lemma_step_frame(s, r);
        lemma_course(s, r, Seq::empty());
        assert forall|i: int| 0 <= i < rest.len() implies #[trigger] rest[i] != ReplyModel::Health(
            HealthModel::Healthy,
        ) by {
            assert(rest[i] == replies[i + 1]);
        }
        if !(t.ask is Finish) {
            assert(t.ask matches AskModel::Connect { net, .. } ==> dialed(t.state.phase) == Some(
                net.ssid,
            ));
            lemma_gated_dial(t.state, t.ask, rest);
        } else {
            assert(t.state.phase is Finished);
            assert(accepted(t.state, rest));
            assert(asked_after(t.state, t.ask, rest) == t.ask);
        }
    }
}

/// In a flow for a profile that requires Tailscale, no network but the bootstrap
/// network is dialed before an exit node is found healthy.
pub proof fn the_target_waits_for_an_exit_node(
    cfg: ConfigModel,
    name: Seq<char>,
    quiet: bool,
    replies: Seq<ReplyModel>,
)
    requires
        cfg.profiles.contains_key(name),
        cfg.profiles[name].tailscale,
        accepted(start(cfg, name, quiet).state, replies),
        forall|i: int|
            0 <= i < replies.len() ==> #[trigger] replies[i] != ReplyModel::Health(
                HealthModel::Healthy,
            ),
    ensures
        asked_after(
            start(cfg, name, quiet).state,
            start(cfg, name, quiet).ask,
            replies,
        ) matches AskModel::Connect { net, .. } ==> cfg.profiles[name].bootstrap == Some(net.ssid),
{
    let first = start(cfg, name, quiet);
    lemma_gated_dial(first.state, first.ask, replies);
}

/// A flow for a profile that requires Tailscale, in which no exit node is found
/// healthy, ends in a Tailscale error, or for want of an interface.
pub proof fn without_a_healthy_exit_node_the_flow_fails(
    cfg: ConfigModel,
    name: Seq<char>,
    quiet: bool,
    replies: Seq<ReplyModel>,
    outcome: OutcomeModel,
    after: ConfigModel,
)
    requires
        cfg.profiles.contains_key(name),
        cfg.profiles[name].tailscale,
        ends(start(cfg, name, quiet).state, start(cfg, name, quiet).ask, replies, outcome, after),
        forall|i: int|
            0 <= i < replies.len() ==> #[trigger] replies[i] != ReplyModel::Health(
                HealthModel::Healthy,
            ),
    ensures
        outcome is NoInterface || (outcome matches OutcomeModel::TailscaleError { health, .. }
            && !(health is Healthy)),
{
    let first = start(cfg, name, quiet);
    lemma_gated_run(first.state, first.ask, replies, outcome, after);
}

// ---- What holds of candidates and turns ----------------------------------

/// The network at position `k` is the one that the name at position `i` means:
/// the first saved one with that SSID.
pub open spec fn means(nets: Seq<NetworkModel>, names: Seq<Seq<char>>, i: int, k: int) -> bool {
    &&& 0 <= i < names.len()
    &&& 0 <= k < nets.len()
    &&& nets[k].ssid == names[i]
    &&& forall|j: int| 0 <= j < k ==> (#[trigger] nets[j]).ssid != names[i]
}

proof fn lemma_listed_from(nets: Seq<NetworkModel>, names: Seq<Seq<char>>)
    ensures
        forall|x: int|
            0 <= x < listed(nets, names).len() ==> names.contains(
                (#[trigger] listed(nets, names)[x]).ssid,
            ),
    decreases names.len(),
{
    if names.len() > 0 {
        let rest = names.drop_last();
        lemma_listed_from(nets, rest);
        text::lemma_first_index(config::ssids(nets), names.last());
        let out = listed(nets, names);
        let before = listed(nets, rest);
        assert forall|x: int| 0 <= x < out.len() implies names.contains((#[trigger] out[x]).ssid) by {
            if x < before.len() {
                assert(out[x] == before[x]);
                let y = rest.index_of(before[x].ssid);
                assert(names[y] == before[x].ssid);
            } else {
                assert(names[names.len() - 1] == out[x].ssid);
            }
        }
    }
}

proof fn lemma_listed_holds(nets: Seq<NetworkModel>, names: Seq<Seq<char>>, i: int, k: int)
    requires
        means(nets, names, i, k),
    ensures
        exists|x: int|
            0 <= x < listed(nets, names).len() && #[trigger] listed(nets, names)[x] == nets[k],
    decreases names.len(),
{
    let rest = names.drop_last();
    let before = listed(nets, rest);
    let out = listed(nets, names);
    if i < rest.len() {
        assert(rest[i] == names[i]);
        lemma_listed_holds(nets, rest, i, k);
        let x = choose|x: int| 0 <= x < before.len() && #[trigger] before[x] == nets[k];
        assert(out[x] == nets[k]);
    } else {
        config::an_ssid_leads_to_its_first_network(nets, names.last(), k);
        if config::ssids(before).contains(nets[k].ssid) {
            let x = config::ssids(before).index_of(nets[k].ssid);
            assert(before[x].ssid == nets[k].ssid);
            lemma_listed(nets, rest);
            assert(config::network_in(nets, before[x].ssid) == Some(before[x]));
            assert(out[x] == nets[k]);
        } else {
            assert(out[before.len() as int] == nets[k]);
        }
    }
}

/// Every SSID that a profile lists and that is saved makes its saved network a
/// candidate, whatever else is known of that network.
pub proof fn every_listed_network_is_a_candidate(
    nets: Seq<NetworkModel>,
    p: ProfileModel,
    i: int,
    k: int,
)
    requires
        means(nets, p.networks, i, k),
    ensures
        candidates(nets, p).contains(nets[k]),
{
    let first = listed(nets, p.networks);
    lemma_listed_holds(nets, p.networks, i, k);
    let x = choose|x: int| 0 <= x < first.len() && #[trigger] first[x] == nets[k];
    if p.include_all_known {
        config::merge_prefers_the_file(first, nets, nets[k].ssid);
        let m = config::merged(first, nets);
        assert(m.take(first.len() as int)[x] == m[x]);
    }
    assert(candidates(nets, p)[x] == nets[k]);
}

proof fn lemma_listed_in_order(
    nets: Seq<NetworkModel>,
    names: Seq<Seq<char>>,
    i: int,
    j: int,
    k: int,
    l: int,
)
    requires
        i < j,
        means(nets, names, i, k),
        means(nets, names, j, l),
        forall|m: int| 0 <= m < j ==> #[trigger] names[m] != names[j],
    ensures
        exists|x: int, y: int|
            0 <= x < y < listed(nets, names).len() && #[trigger] listed(nets, names)[x] == nets[k]
                && #[trigger] listed(nets, names)[y] == nets[l],
    decreases names.len(),
{
    let rest = names.drop_last();
    let before = listed(nets, rest);
    let out = listed(nets, names);
    assert(rest[i] == names[i]);
    if j < rest.len() {
        assert(rest[j] == names[j]);
        assert forall|m: int| 0 <= m < j implies #[trigger] rest[m] != rest[j] by {
            assert(rest[m] == names[m]);
        }
        lemma_listed_in_order(nets, rest, i, j, k, l);
        let (x, y) = choose|x: int, y: int|
            0 <= x < y < before.len() && #[trigger] before[x] == nets[k] && #[trigger] before[y]
                == nets[l];
        assert(out[x] == nets[k] && out[y] == nets[l]);
    } else {
        lemma_listed_holds(nets, rest, i, k);
        let x = choose|x: int| 0 <= x < before.len() && #[trigger] before[x] == nets[k];
        config::an_ssid_leads_to_its_first_network(nets, names.last(), l);
        lemma_listed_from(nets, rest);
        if config::ssids(before).contains(nets[l].ssid) {
            let y = config::ssids(before).index_of(nets[l].ssid);
            assert(before[y].ssid == nets[l].ssid);
            assert(rest.contains(before[y].ssid));
            let m = rest.index_of(before[y].ssid);
            assert(names[m] == names[j]);
        }
        assert(out[x] == nets[k] && out[before.len() as int] == nets[l]);
    }
}

/// The candidates that a profile lists stand in the order of its list.
pub proof fn listed_candidates_keep_the_order(
    nets: Seq<NetworkModel>,
    p: ProfileModel,
    i: int,
    j: int,
    k: int,
    l: int,
)
    requires
        i < j,
        means(nets, p.networks, i, k),
        means(nets, p.networks, j, l),
        forall|m: int| 0 <= m < j ==> #[trigger] p.networks[m] != p.networks[j],
    ensures
        exists|x: int, y: int|
            0 <= x < y < candidates(nets, p).len() && #[trigger] candidates(nets, p)[x] == nets[k]
                && #[trigger] candidates(nets, p)[y] == nets[l],
{
    let first = listed(nets, p.networks);
    lemma_listed_in_order(nets, p.networks, i, j, k, l);
    let (x, y) = choose|x: int, y: int|
        0 <= x < y < first.len() && #[trigger] first[x] == nets[k] && #[trigger] first[y]
            == nets[l];
    let out = candidates(nets, p);
    if p.include_all_known {
        config::merge_prefers_the_file(first, nets, nets[k].ssid);
        assert(out.take(first.len() as int)[x] == out[x]);
        assert(out.take(first.len() as int)[y] == out[y]);
    }
    assert(out[x] == nets[k] && out[y] == nets[l]);
}

/// A profile that does not ask for every known network has no candidate that it
/// does not list.
pub proof fn only_listed_networks_are_candidates(nets: Seq<NetworkModel>, p: ProfileModel, x: int)
    requires
        !p.include_all_known,
        0 <= x < candidates(nets, p).len(),
    ensures
        p.networks.contains(candidates(nets, p)[x].ssid),
{
    lemma_listed_from(nets, p.networks);
}

/// Where a profile asks for every known network, those that it does not list come
/// after those that it does.
pub proof fn listed_candidates_come_first(
    nets: Seq<NetworkModel>,
    p: ProfileModel,
    x: int,
    y: int,
)
    requires
        0 <= x < candidates(nets, p).len(),
        0 <= y < candidates(nets, p).len(),
        p.networks.contains(candidates(nets, p)[x].ssid),
        !p.networks.contains(candidates(nets, p)[y].ssid),
    ensures
        x < y,
{
    let first = listed(nets, p.networks);
    let out = candidates(nets, p);
    lemma_listed_from(nets, p.networks);
    candidates_are_known_and_distinct(nets, p);
    if p.include_all_known {
        config::merge_prefers_the_file(first, nets, out[x].ssid);
        assert(out.take(first.len() as int) == first);
        let i = p.networks.index_of(out[x].ssid);
        assert(config::network_in(nets, out[x].ssid) == Some(out[x]));
        text::lemma_first_index(config::ssids(nets), out[x].ssid);
        let k = text::first_index(config::ssids(nets), out[x].ssid) as int;
        assert forall|j: int| 0 <= j < k implies (#[trigger] nets[j]).ssid != p.networks[i] by {
            assert(config::ssids(nets)[j] == nets[j].ssid);
        }
        assert(means(nets, p.networks, i, k));
        lemma_listed_holds(nets, p.networks, i, k);
        let z = choose|z: int| 0 <= z < first.len() && #[trigger] first[z] == nets[k];
        assert(out.take(first.len() as int)[z] == out[z]);
        assert(config::ssids(out)[z] == config::ssids(out)[x]);
        assert(x == z);
        if y < first.len() {
            assert(out.take(first.len() as int)[y] == out[y]);
            assert(first[y] == out[y]);
        }
    }
}

/// A network is in range exactly where it is among the signals, and its signal is
/// that of its first entry there.
pub proof fn a_signal_is_that_of_the_first_entry(
    signals: Seq<(Seq<char>, i32)>,
    ssid: Seq<char>,
    i: int,
)
    requires
        0 <= i <= signals.len(),
        forall|j: int| 0 <= j < i ==> (#[trigger] signals[j]).0 != ssid,
        i < signals.len() ==> signals[i].0 == ssid,
    ensures
        signal_of(signals, ssid) == (if i < signals.len() {
            Some(signals[i].1)
        } else {
            None
        }),
    decreases i,
{
    if i > 0 {
        let rest = signals.drop_first();
        assert(signals[0].0 != ssid);
        assert forall|j: int| 0 <= j < i - 1 implies (#[trigger] rest[j]).0 != ssid by {
            assert(rest[j] == signals[j + 1]);
        }
        if i < signals.len() {
            assert(rest[i - 1] == signals[i]);
        }
        a_signal_is_that_of_the_first_entry(rest, ssid, i - 1);
    }
}

/// An SSID has a signal exactly where some entry names it.
pub proof fn in_range_means_among_the_signals(signals: Seq<(Seq<char>, i32)>, ssid: Seq<char>)
    ensures
        signal_of(signals, ssid) is Some <==> exists|k: int|
            0 <= k < signals.len() && (#[trigger] signals[k]).0 == ssid,
    decreases signals.len(),
{
    if signals.len() > 0 {
        let rest = signals.drop_first();
        in_range_means_among_the_signals(rest, ssid);
        if signals[0].0 != ssid {
            if signal_of(rest, ssid) is Some {
                let k = choose|k: int| 0 <= k < rest.len() && (#[trigger] rest[k]).0 == ssid;
                assert(signals[k + 1].0 == ssid);
            } else {
                assert forall|k: int| 0 <= k < signals.len() implies (#[trigger] signals[k]).0
                    != ssid by {
                    if k > 0 {
                        assert(rest[k - 1] == signals[k]);
                    }
                }
            }
        }
    }
}

proof fn lemma_unseen_filter(cands: Seq<NetworkModel>, signals: Seq<(Seq<char>, i32)>)
    ensures
        unseen_hidden(cands, signals) == cands.filter(
            |n: NetworkModel| n.hidden && signal_of(signals, n.ssid) is None,
        ),
    decreases cands.len(),
{
    reveal(Seq::filter);
    if cands.len() > 0 {
        lemma_unseen_filter(cands.drop_last(), signals);
    } else {
        assert(unseen_hidden(cands, signals) =~= cands);
    }
}

/// What is in range is dialed first, the stronger before the weaker; then the
/// hidden candidates out of range, in their order.
pub proof fn the_strongest_is_dialed_first(
    cands: Seq<NetworkModel>,
    signals: Seq<(Seq<char>, i32)>,
    x: int,
    y: int,
)
    requires
        0 <= x < y < dial_order(cands, signals).len(),
    ensures
        ({
            let order = dial_order(cands, signals);
            let seen = order.len() - cands.filter(
                |n: NetworkModel| n.hidden && signal_of(signals, n.ssid) is None,
            ).len();
            &&& order[x].1 ==> order[y].1
            &&& !order[y].1 ==> signal_of(signals, order[x].0.ssid)->Some_0 >= signal_of(
                signals,
                order[y].0.ssid,
            )->Some_0
            &&& order.skip(seen).map_values(|t: Turn| t.0) == cands.filter(
                |n: NetworkModel| n.hidden && signal_of(signals, n.ssid) is None,
            )
        }),
{
    let by = by_signal(cands, signals);
    let order = dial_order(cands, signals);
    seen_networks_go_by_signal(cands, signals);
    lemma_unseen_filter(cands, signals);
    let hidden = unseen_hidden(cands, signals);
    assert(order.skip(by.len() as int).map_values(|t: Turn| t.0) =~= hidden);
    if x < by.len() {
        assert(order[x] == (by[x].0, false));
        assert(by.contains(by[x]));
    }
    if y < by.len() {
        assert(order[y] == (by[y].0, false));
        assert(by.contains(by[y]));
    }
}

proof fn lemma_by_signal_len(cands: Seq<NetworkModel>, signals: Seq<(Seq<char>, i32)>)
    ensures
        by_signal(cands, signals).len() == cands.filter(
            |n: NetworkModel| signal_of(signals, n.ssid) is Some,
        ).len(),
    decreases cands.len(),
{
    reveal(Seq::filter);
    if cands.len() > 0 {
        lemma_by_signal_len(cands.drop_last(), signals);
        match signal_of(signals, cands.last().ssid) {
            Some(s) => lemma_first_weaker(by_signal(cands.drop_last(), signals), s),
            None => {},
        }
    }
}

/// There are as many turns as candidates that are in range or hidden: none is
/// left out and none is dialed twice.
pub proof fn every_reachable_candidate_has_one_turn(
    cands: Seq<NetworkModel>,
    signals: Seq<(Seq<char>, i32)>,
)
    ensures
        dial_order(cands, signals).len() == cands.filter(
            |n: NetworkModel| signal_of(signals, n.ssid) is Some,
        ).len() + cands.filter(
            |n: NetworkModel| n.hidden && signal_of(signals, n.ssid) is None,
        ).len(),
{
    lemma_by_signal_len(cands, signals);
    lemma_unseen_filter(cands, signals);
}

// ---- What holds of every step --------------------------------------------

/// A network is dialed with the interface of the flow, for as long as the
/// settings say, and with its own DNS server or else the general one.
pub open spec fn dials(s: FlowModel, ask: AskModel, net: NetworkModel) -> bool {
    ask matches AskModel::Connect { iface, net: n, wait, dns } && iface == s.iface && n == net
        && wait == s.cfg.settings.connect_wait && dns == (match net.dns {
        Some(own) => own,
        None => s.cfg.settings.dns,
    })
}

/// A flow looks around before it dials: with the preferred interface, where it
/// is there, the radio on, and a scan for every candidate and the bootstrap
/// network.
pub proof fn a_flow_looks_around_first(
    cfg: ConfigModel,
    name: Seq<char>,
    quiet: bool,
    s: FlowModel,
    iface: Seq<char>,
    i: int,
)
    requires
        cfg.profiles.contains_key(name),
    ensures
        start(cfg, name, quiet).ask == AskModel::Interface(cfg.settings.interface),
        start(cfg, name, quiet).state.profile == cfg.profiles[name],
        start(cfg, name, quiet).state.candidates == candidates(cfg.networks, cfg.profiles[name]),
        start(cfg, name, quiet).state.cfg == cfg,
        s.phase is Interface ==> step(s, ReplyModel::Interface(None)).ask == AskModel::Finish(
            OutcomeModel::NoInterface,
        ),
        s.phase is Interface ==> step(s, ReplyModel::Interface(Some(iface))).ask is RadioOn && step(
            s,
            ReplyModel::Interface(Some(iface)),
        ).state.iface == iface,
        s.phase is Radio || s.phase is Exit ==> ({
            let ask = if s.phase is Radio {
                step(s, ReplyModel::Done).ask
            } else {
                step(s, ReplyModel::Health(HealthModel::Healthy)).ask
            };
            &&& ask matches AskModel::Rescan(with, targets) && with == s.iface && (0 <= i
                < s.candidates.len() ==> targets.contains(s.candidates[i].ssid)) && (
            s.profile.bootstrap is Some ==> targets.contains(s.profile.bootstrap->Some_0))
        }),
        s.phase is FirstScan || s.phase is SecondScan ==> step(s, ReplyModel::Done).ask
            == AskModel::Look(s.iface),
{
    let targets = scan_targets(s);
    if 0 <= i < s.candidates.len() {
        assert(targets[i] == s.candidates[i].ssid);
    }
    if s.profile.bootstrap is Some {
        assert(targets[s.candidates.len() as int] == s.profile.bootstrap->Some_0);
    }
}

/// Where a profile requires Tailscale, its bootstrap network is dialed first, if
/// it is saved and in range or hidden; where that cannot be, or there is none, an
/// exit node is brought up at once. A profile that does not require it looks
/// around once more.
pub proof fn the_bootstrap_network_comes_first(
    s: FlowModel,
    signals: Seq<(Seq<char>, i32)>,
    k: int,
)
    requires
        s.phase is FirstLook,
        s.profile.bootstrap is Some ==> 0 <= k <= s.cfg.networks.len() && (forall|j: int|
            0 <= j < k ==> (#[trigger] s.cfg.networks[j]).ssid != s.profile.bootstrap->Some_0) && (k
            < s.cfg.networks.len() ==> s.cfg.networks[k].ssid == s.profile.bootstrap->Some_0),
    ensures
        ({
            let ask = step(s, ReplyModel::Signals(signals)).ask;
            let n = s.cfg.networks[k];
            let reachable = s.profile.bootstrap is Some && k < s.cfg.networks.len() && (n.hidden
                || signal_of(signals, n.ssid) is Some);
            if !s.profile.tailscale {
                ask == AskModel::Look(s.iface)
            } else if reachable {
                dials(s, ask, n) && step(s, ReplyModel::Signals(signals)).state.phase
                    == PhaseModel::Connect(n.ssid, Purpose::Bootstrap)
            } else {
                ask == AskModel::EnsureExitNode(config::exit_nodes(s.cfg, s.name))
            }
        }),
{
    if s.profile.bootstrap is Some {
        config::an_ssid_leads_to_its_first_network(s.cfg.networks, s.profile.bootstrap->Some_0, k);
    }
}

/// After the last look the first in the order is dialed, and after a candidate
/// that did not work out, for whatever reason, the next one, until none is left.
/// Then a flow on its bootstrap network looks whether it is still there, and one
/// that is not ends without a network.
pub proof fn every_candidate_has_its_turn(
    s: FlowModel,
    signals: Seq<(Seq<char>, i32)>,
    ssid: Seq<char>,
    unseen: bool,
    e: Seq<char>,
    other: Seq<char>,
)
    requires
        other != ssid,
    ensures
        s.phase is SecondLook ==> ({
            let t = step(s, ReplyModel::Signals(signals));
            let order = dial_order(s.candidates, signals);
            &&& order.len() > 0 ==> dials(s, t.ask, order[0].0) && t.state.queue
                == order.drop_first() && t.state.phase == PhaseModel::Connect(
                order[0].0.ssid,
                Purpose::Candidate(order[0].1),
            )
            &&& order.len() == 0 && s.on_bootstrap ==> t.ask == AskModel::DeviceConnected(s.iface)
            &&& order.len() == 0 && !s.on_bootstrap ==> t.ask == AskModel::Finish(
                OutcomeModel::NoNetworks,
            )
        }),
        ({
            let refused = s.phase == PhaseModel::Connect(ssid, Purpose::Candidate(unseen));
            let down = s.phase == PhaseModel::Device(ssid, Purpose::Candidate(unseen));
            let elsewhere = s.phase == PhaseModel::Active(ssid, Purpose::Candidate(unseen));
            let t = if refused {
                step(s, ReplyModel::Connected(Err(e)))
            } else if down {
                step(s, ReplyModel::Yes(false))
            } else {
                step(s, ReplyModel::Ssid(Some(other)))
            };
            refused || down || elsewhere ==> {
                &&& t.state.cfg == s.cfg
                &&& s.queue.len() > 0 ==> dials(s, t.ask, s.queue[0].0) && t.state.queue
                    == s.queue.drop_first() && t.state.phase == PhaseModel::Connect(
                    s.queue[0].0.ssid,
                    Purpose::Candidate(s.queue[0].1),
                )
                &&& s.queue.len() == 0 && s.on_bootstrap ==> t.ask == AskModel::DeviceConnected(
                    s.iface,
                )
                &&& s.queue.len() == 0 && !s.on_bootstrap ==> t.ask == AskModel::Finish(
                    OutcomeModel::NoNetworks,
                )
            }
        }),
{
}

/// A network counts as joined once the connect succeeded, the device is up, and
/// it does not name another network. What that changes is saved first.
pub proof fn a_network_is_joined_step_by_step(
    s: FlowModel,
    ssid: Seq<char>,
    unseen: bool,
    p: Purpose,
    active: Option<Seq<char>>,
    saved: Result<(), Seq<char>>,
    cleared: bool,
)
    requires
        active is None || active == Some(ssid),
    ensures
        s.phase == PhaseModel::Connect(ssid, p) ==> ({
            let t = step(s, ReplyModel::Connected(Ok(())));
            t.ask == AskModel::DeviceConnected(s.iface) && t.state.phase == PhaseModel::Device(
                ssid,
                p,
            )
        }),
        s.phase == PhaseModel::Device(ssid, p) ==> ({
            let t = step(s, ReplyModel::Yes(true));
            t.ask == AskModel::ActiveSsid(s.iface) && t.state.phase == PhaseModel::Active(ssid, p)
        }),
        s.phase == PhaseModel::Active(ssid, Purpose::Candidate(unseen)) ==> ({
            let t = step(s, ReplyModel::Ssid(active));
            &&& t.state.cfg == after_join(s.cfg, s.name, ssid)
            &&& t.state.cfg != s.cfg ==> t.ask == AskModel::Save(t.state.cfg)
            &&& t.ask is Save || t.ask is Internet
        }),
        s.phase == PhaseModel::Save(ssid, Purpose::Candidate(unseen), cleared) ==> step(
            s,
            ReplyModel::Saved(saved),
        ).ask is Internet,
        s.phase == PhaseModel::Active(ssid, Purpose::Bootstrap) ==> ({
            let t = step(s, ReplyModel::Ssid(active));
            &&& t.state.on_bootstrap
            &&& t.state.cfg == after_join(s.cfg, s.name, ssid)
            &&& t.ask is Save || t.ask == AskModel::EnsureExitNode(
                config::exit_nodes(t.state.cfg, s.name),
            )
        }),
        s.phase == PhaseModel::Save(ssid, Purpose::Bootstrap, cleared) ==> step(
            s,
            ReplyModel::Saved(saved),
        ).ask == AskModel::EnsureExitNode(config::exit_nodes(s.cfg, s.name)),
{
}

/// A flow that joined a candidate ends connected to it, with a note exactly where
/// there is no internet. One whose exit node is not healthy ends with what is
/// amiss. A bootstrap network that cannot be joined does not keep the flow from
/// bringing an exit node up.
pub proof fn a_flow_tells_how_it_ended(
    s: FlowModel,
    ssid: Seq<char>,
    c: Connectivity,
    h: HealthModel,
    active: Option<Seq<char>>,
    e: Seq<char>,
)
    ensures
        s.phase == PhaseModel::Internet(ssid) ==> (step(s, ReplyModel::Online(c)).ask matches
            AskModel::Finish(OutcomeModel::Connected { ssid: on, note }) && on == ssid && (note
            is None <==> c is Online)),
        s.phase is Exit && !(h is Healthy) ==> step(s, ReplyModel::Health(h)).ask
            == AskModel::ActiveSsid(s.iface) && step(s, ReplyModel::Health(h)).state.phase
            == PhaseModel::Down(h),
        s.phase == PhaseModel::Down(h) ==> (step(s, ReplyModel::Ssid(active)).ask matches
            AskModel::Finish(OutcomeModel::TailscaleError { ssid: at, health }) && health == h
            && at == (if active is Some {
            active
        } else {
            s.profile.bootstrap
        })),
        s.phase == PhaseModel::Connect(ssid, Purpose::Bootstrap) ==> step(
            s,
            ReplyModel::Connected(Err(e)),
        ).ask == AskModel::EnsureExitNode(config::exit_nodes(s.cfg, s.name)),
        s.phase is Still && s.profile.bootstrap == Some(ssid) ==> (step(
            s,
            ReplyModel::Yes(true),
        ).ask matches AskModel::Finish(OutcomeModel::Connected { ssid: on, note }) && on == ssid
            && note is Some),
{
}

/// A bootstrap network that is no longer there when no candidate worked is dialed
/// again, where it is still saved; where that fails, the flow ends without one.
pub proof fn a_lost_bootstrap_network_is_dialed_again(
    s: FlowModel,
    bs: Seq<char>,
    k: int,
    ssid: Seq<char>,
    e: Seq<char>,
    active: Option<Seq<char>>,
)
    requires
        s.profile.bootstrap == Some(bs),
        0 <= k < s.cfg.networks.len(),
        s.cfg.networks[k].ssid == bs,
        forall|j: int| 0 <= j < k ==> (#[trigger] s.cfg.networks[j]).ssid != bs,
    ensures
        s.phase is Still ==> dials(s, step(s, ReplyModel::Yes(false)).ask, s.cfg.networks[k])
            && step(s, ReplyModel::Yes(false)).state.phase == PhaseModel::Connect(
            bs,
            Purpose::Reconnect,
        ),
        s.phase == PhaseModel::Connect(ssid, Purpose::Reconnect) ==> step(
            s,
            ReplyModel::Connected(Err(e)),
        ).ask == AskModel::Finish(OutcomeModel::NoNetworks),
{
    config::an_ssid_leads_to_its_first_network(s.cfg.networks, bs, k);
}

/// What joining a network leaves behind: its password is gone, the rest of it is
/// as it was, and so is every other network. Only the profile it was joined under
/// may learn the SSID, at the end of its markers. A configuration that changes is
/// the user's.
pub proof fn joining_leaves_the_rest_alone(
    cfg: ConfigModel,
    name: Seq<char>,
    ssid: Seq<char>,
    i: int,
    other: Seq<char>,
)
    requires
        0 <= i < cfg.networks.len(),
    ensures
        ({
            let out = after_join(cfg, name, ssid);
            let n = cfg.networks[i];
            let first = n.ssid == ssid && forall|j: int|
                0 <= j < i ==> (#[trigger] cfg.networks[j]).ssid != ssid;
            &&& out.networks.len() == cfg.networks.len()
            &&& out.networks[i] == (if first {
                NetworkModel { password: None, ..n }
            } else {
                n
            })
            &&& other != name ==> out.profiles.contains_key(other) == cfg.profiles.contains_key(
                other,
            ) && out.profiles[other] == cfg.profiles[other]
            &&& cfg.profiles.contains_key(name) ==> ({
                let p = cfg.profiles[name];
                let q = out.profiles[name];
                &&& (config::ProfileModel { detect_ssids: p.detect_ssids, ..q }) == p
                &&& q.detect_ssids == p.detect_ssids || q.detect_ssids == p.detect_ssids.push(ssid)
            })
            &&& out != cfg ==> out.settings.core_profiles_initialized
        }),
{
    let nets = cfg.networks;
    let all = config::ssids(nets);
    text::lemma_first_index(all, ssid);
    let k = text::first_index(all, ssid) as int;
    let n = nets[i];
    let first = n.ssid == ssid && forall|j: int| 0 <= j < i ==> (#[trigger] nets[j]).ssid != ssid;
    assert(all[i] == n.ssid);
    if first {
        assert forall|j: int| 0 <= j < i implies all[j] != ssid by {
            assert(nets[j].ssid != ssid);
        }
        text::lemma_first_index_is(all, ssid, i);
    } else if k == i {
        assert(all[k] == ssid);
        assert forall|j: int| 0 <= j < i implies (#[trigger] nets[j]).ssid != ssid by {
            assert(all[j] != ssid);
        }
    }
    if !join_changes(cfg, name, ssid) && first {
        assert(nets[i].password is None);
        assert(n =~= NetworkModel { password: None, ..n });
    }
}

/// A profile that learns takes up the SSID it has joined as its last marker, if it
/// does not have it yet and has fewer than sixteen; otherwise its markers stay.
pub proof fn a_profile_learns_what_is_new(cfg: ConfigModel, name: Seq<char>, ssid: Seq<char>, i: int)
    requires
        cfg.profiles.contains_key(name),
        0 <= i < cfg.profiles[name].detect_ssids.len(),
    ensures
        ({
            let p = cfg.profiles[name];
            let had = p.detect_ssids;
            let now = after_join(cfg, name, ssid).profiles[name].detect_ssids;
            &&& had[i] == ssid ==> now == had
            &&& had.len() >= 16 ==> now == had
            &&& !p.learn ==> now == had
            &&& p.learn && had.len() < 16 && (forall|j: int|
                0 <= j < had.len() ==> #[trigger] had[j] != ssid) ==> now == had.push(ssid)
        }),
{
    let p = cfg.profiles[name];
    assert(p.detect_ssids.contains(p.detect_ssids[i]));
    if p.learn && p.detect_ssids.len() < 16 && (forall|j: int|
        0 <= j < p.detect_ssids.len() ==> #[trigger] p.detect_ssids[j] != ssid) {
        assert(!p.detect_ssids.contains(ssid));
        assert(learns(p, ssid));
    }
}

/// The first marker of a profile that learns is the first SSID it joins.
pub proof fn an_empty_profile_learns_its_first_marker(
    cfg: ConfigModel,
    name: Seq<char>,
    ssid: Seq<char>,
)
    requires
        cfg.profiles.contains_key(name),
        cfg.profiles[name].detect_ssids.len() == 0,
    ensures
        after_join(cfg, name, ssid).profiles[name].detect_ssids == (if cfg.profiles[name].learn {
            seq![ssid]
        } else {
            Seq::empty()
        }),
{
    let p = cfg.profiles[name];
    assert(!p.detect_ssids.contains(ssid));
    assert(p.detect_ssids.push(ssid) =~= seq![ssid]);
    assert(p.detect_ssids =~= Seq::empty());
}

/// A bootstrap network that did not work out, for whatever reason, does not keep
/// the flow from bringing an exit node up; one that was dialed again and did not
/// work out leaves the flow without a network, and one that did ends it there.
pub proof fn a_bootstrap_network_may_fail(
    s: FlowModel,
    ssid: Seq<char>,
    other: Seq<char>,
    bs: Seq<char>,
    saved: Result<(), Seq<char>>,
    cleared: bool,
)
    requires
        other != ssid,
        s.profile.bootstrap == Some(bs),
    ensures
        s.phase == PhaseModel::Device(ssid, Purpose::Bootstrap) ==> step(
            s,
            ReplyModel::Yes(false),
        ).ask == AskModel::EnsureExitNode(config::exit_nodes(s.cfg, s.name)),
        s.phase == PhaseModel::Active(ssid, Purpose::Bootstrap) ==> step(
            s,
            ReplyModel::Ssid(Some(other)),
        ).ask == AskModel::EnsureExitNode(config::exit_nodes(s.cfg, s.name)),
        s.phase == PhaseModel::Device(ssid, Purpose::Reconnect) ==> step(
            s,
            ReplyModel::Yes(false),
        ).ask == AskModel::Finish(OutcomeModel::NoNetworks),
        s.phase == PhaseModel::Active(ssid, Purpose::Reconnect) ==> step(
            s,
            ReplyModel::Ssid(Some(other)),
        ).ask == AskModel::Finish(OutcomeModel::NoNetworks),
        s.phase == PhaseModel::Active(ssid, Purpose::Reconnect) ==> ({
            let ask = step(s, ReplyModel::Ssid(Some(ssid))).ask;
            ask is Save || (ask matches AskModel::Finish(
                OutcomeModel::Connected { ssid: on, note },
            ) && on == bs && note is Some)
        }),
        s.phase == PhaseModel::Save(ssid, Purpose::Reconnect, cleared) ==> (step(
            s,
            ReplyModel::Saved(saved),
        ).ask matches AskModel::Finish(OutcomeModel::Connected { ssid: on, note }) && on == bs
            && note is Some),
{
}

/// Why a flow stays on its bootstrap network: because what it dialed did not work
/// out, or because there was nothing to dial.
pub proof fn staying_has_its_reason(s: FlowModel, bs: Seq<char>)
    requires
        s.profile.bootstrap == Some(bs),
        s.phase is Still,
    ensures
        step(s, ReplyModel::Yes(true)).ask == AskModel::Finish(
            OutcomeModel::Connected {
                ssid: bs,
                note: Some(
                    (if s.attempted {
                        "target network connect failed"@
                    } else {
                        "target network not in range"@
                    }) + " — staying on "@ + bs + " (Tailscale OK)"@,
                ),
            },
        ),
        s.queue.len() > 0 ==> dial_next(s).state.attempted,
{
}

/// A flow that is not quiet tells the user how it ended, critically where it
/// failed.
pub proof fn an_end_is_announced(s: FlowModel, ssid: Seq<char>, c: Connectivity)
    requires
        !s.quiet,
    ensures
        s.phase == PhaseModel::Internet(ssid) ==> ({
            let says = step(s, ReplyModel::Online(c)).says;
            says.len() > 0 && (says[0] matches SayModel::Notify(_, _, u) && (u is Low <==> c
                is Online) && (u is Normal <==> !(c is Online)))
        }),
        no_networks(s).says.len() > 0 && (no_networks(s).says[0] matches SayModel::Notify(_, _, u)
            && u is Critical),
        no_networks(s).ask == AskModel::Finish(OutcomeModel::NoNetworks),
{
}

/// The model of a configuration in two files is that of the first with the
/// networks of the second.
pub proof fn two_files_are_one_configuration(f: ConfigFiles, i: int)
    ensures
        in_files(f).settings == f.main@.settings,
        in_files(f).profiles == f.main@.profiles,
        in_files(f).networks.len() == f.networks@.len(),
        0 <= i < f.networks@.len() ==> in_files(f).networks[i] == f.networks@[i]@,
{
}

/// A step changes only what it is about: what the flow was started with, and what
/// it found out before, stays.
pub proof fn a_step_keeps_the_rest(s: FlowModel, reply: ReplyModel)
    requires
        fits(s.phase, reply),
    ensures
        ({
            let t = step(s, reply).state;
            &&& t.name == s.name
            &&& t.quiet == s.quiet
            &&& t.profile == s.profile
            &&& t.candidates == s.candidates
            &&& !(s.phase is Interface) ==> t.iface == s.iface
            &&& !(s.phase is Active) ==> t.cfg == s.cfg
            &&& s.on_bootstrap && !(s.phase matches PhaseModel::Connect(_, Purpose::Reconnect))
                && !(s.phase matches PhaseModel::Device(_, Purpose::Reconnect)) && !(
            s.phase matches PhaseModel::Active(_, Purpose::Reconnect)) ==> t.on_bootstrap
            &&& !(s.phase is Active) ==> t.on_bootstrap ==> s.on_bootstrap
            &&& s.attempted ==> t.attempted
        }),
{
}

/// Where a flow goes from a step that does not decide anything.
pub proof fn phases_follow_one_another(s: FlowModel, iface: Seq<char>, v: Seq<(Seq<char>, i32)>)
    ensures
        s.phase is Interface ==> step(s, ReplyModel::Interface(Some(iface))).state.phase is Radio,
        s.phase is Radio ==> step(s, ReplyModel::Done).state.phase is FirstScan,
        s.phase is FirstScan ==> step(s, ReplyModel::Done).state.phase is FirstLook,
        s.phase is FirstLook && !s.profile.tailscale ==> step(
            s,
            ReplyModel::Signals(v),
        ).state.phase is SecondLook,
        s.phase is Exit ==> step(s, ReplyModel::Health(HealthModel::Healthy)).state.phase
            is SecondScan,
        s.phase is SecondScan ==> step(s, ReplyModel::Done).state.phase is SecondLook,
        s.phase is SecondLook && dial_order(s.candidates, v).len() == 0 && s.on_bootstrap ==> step(
            s,
            ReplyModel::Signals(v),
        ).state.phase is Still,
{
}

/// A failure is logged with the SSID, what it was dialed for, and the error.
pub proof fn a_failure_is_logged(s: FlowModel, ssid: Seq<char>, p: Purpose, e: Seq<char>)
    requires
        s.phase == PhaseModel::Connect(ssid, p),
    ensures
        ({
            let says = step(s, ReplyModel::Connected(Err(e))).says;
            let head = match p {
                Purpose::Bootstrap => "bootstrap connect failed: "@,
                Purpose::Candidate(false) => "connect failed (visible): "@,
                Purpose::Candidate(true) => "connect failed (hidden): "@,
                Purpose::Reconnect => "bootstrap reconnect failed: "@,
            };
            says.len() > 0 && says[0] == SayModel::Log(head + ssid + " — "@ + e)
        }),
{
}

/// A configuration that could not be saved is logged with what was to be saved,
/// and the flow goes on as if it had been.
pub proof fn an_unsaved_change_is_logged(
    s: FlowModel,
    ssid: Seq<char>,
    p: Purpose,
    cleared: bool,
    e: Seq<char>,
)
    requires
        s.phase == PhaseModel::Save(ssid, p, cleared),
    ensures
        ({
            let bad = step(s, ReplyModel::Saved(Err(e)));
            let good = step(s, ReplyModel::Saved(Ok(())));
            &&& bad.ask == good.ask
            &&& bad.state == good.state
            &&& bad.says == seq![
                SayModel::Log(
                    (if cleared {
                        "failed to persist cleared password for "@
                    } else {
                        "failed to persist learned SSID "@
                    }) + ssid + ": "@ + e,
                ),
            ] + good.says
        }),
{
}

} // verus!
