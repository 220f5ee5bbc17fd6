//! The events this program publishes on the bread bus and the commands it takes
//! from there. Works the same with or without a bus: publishing is fire and
//! forget.

use vstd::prelude::*;

use crate::json;
use crate::json::{Json, JsonModel};
use crate::text;

verus! {

/// This program's name on the bus: events are published as `bread.crumbs.*`,
/// commands arrive on `bread.command.crumbs.*`.
pub const APP_ID: &'static str = "crumbs";

/// An event to publish.
#[derive(Debug, PartialEq, Eq)]
pub struct BusEvent {
    pub name: String,
    pub data: Json,
}

pub struct EventModel {
    pub name: Seq<char>,
    pub data: JsonModel,
}

impl View for BusEvent {
    type V = EventModel;

    open spec fn view(&self) -> EventModel {
        EventModel { name: self.name@, data: self.data@ }
    }
}

/// A text, or null where there is none.
pub open spec fn text_or_null(o: Option<Seq<char>>) -> JsonModel {
    match o {
        Some(s) => JsonModel::Text(s),
        None => JsonModel::Null,
    }
}

fn json_text(s: &str) -> (r: Json)
    ensures
        r@ == JsonModel::Text(s@),
{
    Json::Text(s.to_string())
}

fn json_option(o: Option<&str>) -> (r: Json)
    ensures
        r@ == text_or_null(text::opt_str_view(o)),
{
    match o {
        Some(s) => Json::Text(s.to_string()),
        None => Json::Null,
    }
}

fn object1(k1: &str, v1: Json) -> (r: Json)
    ensures
        r@ == JsonModel::Object(seq![(k1@, v1@)]),
{
    let mut v: Vec<(String, Json)> = Vec::new();
    v.push((k1.to_string(), v1));
    let r = Json::Object(v);
    assert(r@->Object_0 =~= seq![(k1@, v1@)]);
    r
}

fn with(object: Json, k: &str, v: Json) -> (r: Json)
    requires
        object is Object,
    ensures
        r is Object,
        r@ == JsonModel::Object(object@->Object_0.push((k@, v@))),
{
    let ghost before = object@->Object_0;
    match object {
        Json::Object(mut entries) => {
            entries.push((k.to_string(), v));
            let r = Json::Object(entries);
            assert(r@->Object_0 =~= before.push((k@, v@)));
            r
        },
        other => other,
    }
}

fn empty_object() -> (r: Json)
    ensures
        r is Object,
        r@ == JsonModel::Object(Seq::empty()),
{
    let r = Json::Object(Vec::new());
    assert(r@->Object_0 =~= Seq::<(Seq<char>, JsonModel)>::empty());
    r
}

/// The active profile changed.
pub open spec fn profile_changed(from: Seq<char>, to: Seq<char>) -> EventModel {
    EventModel {
        name: "bread.crumbs.profile.changed"@,
        data: JsonModel::Object(
            seq![("from"@, JsonModel::Text(from)), ("to"@, JsonModel::Text(to))],
        ),
    }
}

pub fn emit_profile_changed(from: &str, to: &str) -> (r: BusEvent)
    ensures
        r@ == profile_changed(from@, to@),
{
    let data = with(with(empty_object(), "from", json_text(from)), "to", json_text(to));
    assert(data@->Object_0 =~= profile_changed(from@, to@).data->Object_0);
    BusEvent { name: "bread.crumbs.profile.changed".to_string(), data }
}

/// What an event about the health says.
pub struct HealthChanged<'a> {
    pub profile: &'a str,
    pub health: &'a str,
    pub ssid: Option<&'a str>,
    pub iface: Option<&'a str>,
    pub ip: Option<&'a str>,
    pub exit_node: &'a str,
    pub tailscale: Option<&'a str>,
}

#[verifier::ext_equal]
pub struct HealthChangedModel {
    pub profile: Seq<char>,
    pub health: Seq<char>,
    pub ssid: Option<Seq<char>>,
    pub iface: Option<Seq<char>>,
    pub ip: Option<Seq<char>>,
    pub exit_node: Seq<char>,
    pub tailscale: Option<Seq<char>>,
}

impl<'a> View for HealthChanged<'a> {
    type V = HealthChangedModel;

    open spec fn view(&self) -> HealthChangedModel {
        HealthChangedModel {
            profile: self.profile@,
            health: self.health@,
            ssid: text::opt_str_view(self.ssid),
            iface: text::opt_str_view(self.iface),
            ip: text::opt_str_view(self.ip),
            exit_node: self.exit_node@,
            tailscale: text::opt_str_view(self.tailscale),
        }
    }
}

/// The health changed.
pub open spec fn health_changed(h: HealthChangedModel) -> EventModel {
    EventModel {
        name: "bread.crumbs.health.changed"@,
        data: JsonModel::Object(
            seq![
                ("profile"@, JsonModel::Text(h.profile)),
                ("health"@, JsonModel::Text(h.health)),
                ("ssid"@, text_or_null(h.ssid)),
                ("iface"@, text_or_null(h.iface)),
                ("ip"@, text_or_null(h.ip)),
                ("exit_node"@, JsonModel::Text(h.exit_node)),
                ("tailscale"@, text_or_null(h.tailscale)),
            ],
        ),
    }
}

pub fn emit_health_changed(ev: HealthChanged<'_>) -> (r: BusEvent)
    ensures
        r@ == health_changed(ev@),
{
    let data = empty_object();
    let data = with(data, "profile", json_text(ev.profile));
    let data = with(data, "health", json_text(ev.health));
    let data = with(data, "ssid", json_option(ev.ssid));
    let data = with(data, "iface", json_option(ev.iface));
    let data = with(data, "ip", json_option(ev.ip));
    let data = with(data, "exit_node", json_text(ev.exit_node));
    let data = with(data, "tailscale", json_option(ev.tailscale));
    assert(data@->Object_0 =~= health_changed(ev@).data->Object_0);
    BusEvent { name: "bread.crumbs.health.changed".to_string(), data }
}

/// The active SSID changed.
pub open spec fn network_changed(
    from: Option<Seq<char>>,
    to: Option<Seq<char>>,
    profile: Seq<char>,
) -> EventModel {
    EventModel {
        name: "bread.crumbs.network.changed"@,
        data: JsonModel::Object(
            seq![
                ("from"@, text_or_null(from)),
                ("to"@, text_or_null(to)),
                ("profile"@, JsonModel::Text(profile)),
            ],
        ),
    }
}

/// The active SSID changed. `from` is null when there was no previous
/// association.
pub fn emit_network_changed(from: Option<&str>, to: Option<&str>, profile: &str) -> (r: BusEvent)
    ensures
        r@ == network_changed(text::opt_str_view(from), text::opt_str_view(to), profile@),
{
    let data = with(empty_object(), "from", json_option(from));
    let data = with(data, "to", json_option(to));
    let data = with(data, "profile", json_text(profile));
    let ghost want = network_changed(text::opt_str_view(from), text::opt_str_view(to), profile@);
    assert(data@->Object_0 =~= want.data->Object_0);
    BusEvent { name: "bread.crumbs.network.changed".to_string(), data }
}

/// The Tailscale health changed.
pub open spec fn tailscale_changed(
    profile: Seq<char>,
    state: Option<Seq<char>>,
    exit_node: Seq<char>,
) -> EventModel {
    EventModel {
        name: "bread.crumbs.tailscale.changed"@,
        data: JsonModel::Object(
            seq![
                ("profile"@, JsonModel::Text(profile)),
                ("state"@, text_or_null(state)),
                ("exit_node"@, JsonModel::Text(exit_node)),
            ],
        ),
    }
}

/// The Tailscale health state (or its mere presence) changed.
pub fn emit_tailscale_changed(profile: &str, state: Option<&str>, exit_node: &str) -> (r: BusEvent)
    ensures
        r@ == tailscale_changed(profile@, text::opt_str_view(state), exit_node@),
{
    let data = with(empty_object(), "profile", json_text(profile));
    let data = with(data, "state", json_option(state));
    let data = with(data, "exit_node", json_text(exit_node));
    let ghost want = tailscale_changed(profile@, text::opt_str_view(state), exit_node@);
    assert(data@->Object_0 =~= want.data->Object_0);
    BusEvent { name: "bread.crumbs.tailscale.changed".to_string(), data }
}

/// Setting a profile by command worked.
pub open spec fn set_profile_done(profile: Seq<char>) -> EventModel {
    EventModel {
        name: "bread.crumbs.set_profile.done"@,
        data: JsonModel::Object(seq![("profile"@, JsonModel::Text(profile))]),
    }
}

/// Setting a profile by command failed.
pub open spec fn set_profile_failed(error: Seq<char>) -> EventModel {
    EventModel {
        name: "bread.crumbs.set_profile.failed"@,
        data: JsonModel::Object(seq![("error"@, JsonModel::Text(error))]),
    }
}

/// What a `bread.command.crumbs.*` event asks the watch loop to do.
#[derive(Debug, PartialEq, Eq)]
pub enum CommandAction {
    /// Make this the active profile. Done by the watch loop, which alone touches
    /// the configuration and state files.
    SetProfile(String),
    /// Nothing to do: unknown verb, or a command that was not valid.
    Ignore,
}

pub enum CommandModel {
    SetProfile(Seq<char>),
    Ignore,
}

impl View for CommandAction {
    type V = CommandModel;

    open spec fn view(&self) -> CommandModel {
        match self {
            CommandAction::SetProfile(p) => CommandModel::SetProfile(p@),
            CommandAction::Ignore => CommandModel::Ignore,
        }
    }
}

/// What becomes of a command: what to do, a line for the log, and an event to
/// publish.
#[derive(Debug, PartialEq, Eq)]
pub struct Handled {
    pub action: CommandAction,
    pub log: Option<String>,
    pub event: Option<BusEvent>,
}

/// The model of an optional event.
pub open spec fn opt_event(o: Option<BusEvent>) -> Option<EventModel> {
    match o {
        Some(e) => Some(e@),
        None => None,
    }
}

pub struct HandledModel {
    pub action: CommandModel,
    pub log: Option<Seq<char>>,
    pub event: Option<EventModel>,
}

impl View for Handled {
    type V = HandledModel;

    open spec fn view(&self) -> HandledModel {
        HandledModel {
            action: self.action@,
            log: text::opt_view(self.log),
            event: opt_event(self.event),
        }
    }
}

/// A command that could not be done.
pub open spec fn refused(error: Seq<char>) -> HandledModel {
    HandledModel {
        action: CommandModel::Ignore,
        log: Some("watch: bread.command.crumbs.set_profile failed: "@ + error),
        event: Some(set_profile_failed(error)),
    }
}

/// The start of the name of each command for this program.
pub open spec fn command_prefix() -> Seq<char> {
    "bread.command.crumbs."@
}

/// What becomes of an event that may be a command.
pub open spec fn handled(event: Seq<char>, data: JsonModel) -> HandledModel {
    let nothing = HandledModel { action: CommandModel::Ignore, log: None, event: None };
    if !text::begins_with(event, command_prefix()) {
        nothing
    } else {
        let verb = event.skip(command_prefix().len() as int);
        if verb == "set_profile"@ {
            match json::text_field(data, "profile"@) {
                Some(name) => if text::trimmed(name).len() > 0 {
                    HandledModel { action: CommandModel::SetProfile(name), ..nothing }
                } else {
                    refused("missing string \"profile\" in command data"@)
                },
                None => refused("missing string \"profile\" in command data"@),
            }
        } else {
            HandledModel {
                log: Some("watch: ignoring unrecognized bread.command.crumbs."@ + verb),
                ..nothing
            }
        }
    }
}

fn refuse(error: &str) -> (r: Handled)
    ensures
        r@ == refused(error@),
{
    Handled {
        action: CommandAction::Ignore,
        log: Some("watch: bread.command.crumbs.set_profile failed: ".to_string().concat(error)),
        event: Some(
            BusEvent {
                name: "bread.crumbs.set_profile.failed".to_string(),
                data: object1("error", json_text(error)),
            },
        ),
    }
}

/// Reads a `bread.command.crumbs.*` event. Only `set_profile` asks for
/// something; other verbs are ignored. Nothing is done here: the watch loop
/// applies the action.
pub fn handle_command(event: &str, data: &Json) -> (r: Handled)
    ensures
        r@ == handled(event@, data@),
{
    match text::after_prefix(event, "bread.command.crumbs.") {
        None => Handled { action: CommandAction::Ignore, log: None, event: None },
        Some(verb) => {
            if text::same(verb.as_str(), "set_profile") {
                match data.get_str("profile") {
                    Some(name) => {
                        if text::trim(name).as_str().is_empty() {
                            refuse("missing string \"profile\" in command data")
                        } else {
                            Handled {
                                action: CommandAction::SetProfile(name.to_string()),
                                log: None,
                                event: None,
                            }
                        }
                    },
                    None => refuse("missing string \"profile\" in command data"),
                }
            } else {
                Handled {
                    action: CommandAction::Ignore,
                    log: Some(
                        "watch: ignoring unrecognized bread.command.crumbs.".to_string().concat(
                            verb.as_str(),
                        ),
                    ),
                    event: None,
                }
            }
        },
    }
}

/// What the log says, and what is published, once a `set_profile` command has
/// been carried out with this result.
pub open spec fn applied(name: Seq<char>, result: Result<(), Seq<char>>) -> (Seq<char>, EventModel) {
    match result {
        Ok(_) => (
            "watch: profile set via bread.command.crumbs.set_profile -> "@ + name,
            set_profile_done(name),
        ),
        Err(e) => (
            "watch: bread.command.crumbs.set_profile failed: "@ + e,
            set_profile_failed(e),
        ),
    }
}

/// The line for the log and the event that confirm a `set_profile` command, by
/// how it went.
pub fn apply_set_profile(name: &str, result: &Result<(), String>) -> (r: (String, BusEvent))
    ensures
        (r.0@, r.1@) == applied(name@, crate::backend::result_view(*result)),
{
    match result {
        Ok(_) => (
            "watch: profile set via bread.command.crumbs.set_profile -> ".to_string().concat(name),
            BusEvent {
                name: "bread.crumbs.set_profile.done".to_string(),
                data: object1("profile", json_text(name)),
            },
        ),
        Err(e) => (
            "watch: bread.command.crumbs.set_profile failed: ".to_string().concat(e.as_str()),
            BusEvent {
                name: "bread.crumbs.set_profile.failed".to_string(),
                data: object1("error", json_text(e.as_str())),
            },
        ),
    }
}

/// Only a `set_profile` command that names a profile asks for anything.
pub proof fn only_set_profile_asks_for_something(event: Seq<char>, data: JsonModel)
    ensures
        handled(event, data).action matches CommandModel::SetProfile(name) ==> event
            == command_prefix() + "set_profile"@ && json::text_field(data, "profile"@) == Some(name)
            && text::trimmed(name).len() > 0,
{
    if text::begins_with(event, command_prefix()) {
        let n = command_prefix().len() as int;
        assert(event =~= event.take(n) + event.skip(n));
        assert(event.take(n) =~= command_prefix());
    }
}

/// The command to set a profile is carried out for every profile that is more than
/// white space; without one it is refused and the refusal published.
pub proof fn a_command_is_carried_out_or_refused(data: JsonModel, name: Seq<char>)
    ensures
        ({
            let h = handled("bread.command.crumbs."@ + "set_profile"@, data);
            let given = json::text_field(data, "profile"@);
            &&& given == Some(name) && text::trimmed(name).len() > 0 ==> h.action
                == CommandModel::SetProfile(name) && h.event is None && h.log is None
            &&& given == Some(name) && text::trimmed(name).len() == 0 ==> h.action is Ignore
                && h.event is Some && h.event->Some_0.name == "bread.crumbs.set_profile.failed"@
                && h.log is Some
            &&& given is None ==> h.action is Ignore && h.event is Some && h.event->Some_0.name
                == "bread.crumbs.set_profile.failed"@ && h.log is Some
        }),
{
    let p = command_prefix();
    let e = p + "set_profile"@;
    assert(e.take(p.len() as int) =~= p);
    assert(e.skip(p.len() as int) =~= "set_profile"@);
}

/// Other commands are logged with their name and nothing more; what is no command
/// for this program is passed over in silence.
pub proof fn other_commands_are_only_logged(event: Seq<char>, verb: Seq<char>, data: JsonModel)
    ensures
        verb != "set_profile"@ ==> ({
            let h = handled("bread.command.crumbs."@ + verb, data);
            h.action is Ignore && h.event is None && h.log is Some
        }),
        !text::begins_with(event, "bread.command.crumbs."@) ==> ({
            let h = handled(event, data);
            h.action is Ignore && h.event is None && h.log is None
        }),
{
    let p = command_prefix();
    let e = p + verb;
    assert(e.take(p.len() as int) =~= p);
    assert(e.skip(p.len() as int) =~= verb);
}

/// What is published carries its values under their names; what is not known is
/// null.
pub proof fn events_carry_their_values(
    a: Seq<char>,
    b: Seq<char>,
    from: Option<Seq<char>>,
    to: Option<Seq<char>>,
    h: HealthChangedModel,
)
    ensures
        ({
            let known = |o: Option<Seq<char>>|
                if o is Some {
                    JsonModel::Text(o->Some_0)
                } else {
                    JsonModel::Null
                };
            &&& profile_changed(a, b) == (EventModel {
                name: "bread.crumbs.profile.changed"@,
                data: JsonModel::Object(
                    seq![("from"@, JsonModel::Text(a)), ("to"@, JsonModel::Text(b))],
                ),
            })
            &&& network_changed(from, to, a) == (EventModel {
                name: "bread.crumbs.network.changed"@,
                data: JsonModel::Object(
                    seq![
                        ("from"@, known(from)),
                        ("to"@, known(to)),
                        ("profile"@, JsonModel::Text(a)),
                    ],
                ),
            })
            &&& tailscale_changed(a, to, b) == (EventModel {
                name: "bread.crumbs.tailscale.changed"@,
                data: JsonModel::Object(
                    seq![
                        ("profile"@, JsonModel::Text(a)),
                        ("state"@, known(to)),
                        ("exit_node"@, JsonModel::Text(b)),
                    ],
                ),
            })
            &&& health_changed(h).name == "bread.crumbs.health.changed"@
            &&& health_changed(h).data is Object
            &&& health_changed(h).data->Object_0 == seq![
                ("profile"@, JsonModel::Text(h.profile)),
                ("health"@, JsonModel::Text(h.health)),
                ("ssid"@, known(h.ssid)),
                ("iface"@, known(h.iface)),
                ("ip"@, known(h.ip)),
                ("exit_node"@, JsonModel::Text(h.exit_node)),
                ("tailscale"@, known(h.tailscale)),
            ]
        }),
{
}

/// A profile that was set is published as done, one that was not with the error.
pub proof fn the_result_of_a_command_is_published(name: Seq<char>, e: Seq<char>)
    ensures
        applied(name, Ok(())).1 == (EventModel {
            name: "bread.crumbs.set_profile.done"@,
            data: JsonModel::Object(seq![("profile"@, JsonModel::Text(name))]),
        }),
        applied(name, Err(e)).1 == (EventModel {
            name: "bread.crumbs.set_profile.failed"@,
            data: JsonModel::Object(seq![("error"@, JsonModel::Text(e))]),
        }),
{
}

} // verus!
