//! The interactive login to Tailscale: a program that prints an address, which
//! is opened in the browser, and that ends when the user is done there.

use vstd::prelude::*;

use crate::flow;
use crate::flow::{Say, SayModel};
use crate::notify::Urgency;
use crate::text;
use crate::util;
use crate::util::{Child, Waiting};

verus! {

/// How long an address is waited for, in seconds.
pub const URL_WAIT: u64 = 30;

/// How long the user has to complete the login, in seconds.
pub const LOGIN_WAIT: u64 = 300;

/// What came of the last step.
#[derive(Debug)]
pub enum Event {
    /// The program was started, or why not.
    Started(Result<(), String>),
    /// The first address that was printed in time.
    Printed(Option<String>),
    /// The browser was asked to open it.
    Opened,
    /// The program was looked at, and whether its time is up.
    Seen(Child, bool),
    /// The program was ended.
    Killed,
}

pub enum EventModel {
    Started(Result<(), Seq<char>>),
    Printed(Option<Seq<char>>),
    Opened,
    Seen(Child, bool),
    Killed,
}

impl View for Event {
    type V = EventModel;

    open spec fn view(&self) -> EventModel {
        match self {
            Event::Started(r) => EventModel::Started(crate::backend::result_view(*r)),
            Event::Printed(u) => EventModel::Printed(text::opt_view(*u)),
            Event::Opened => EventModel::Opened,
            Event::Seen(c, overdue) => EventModel::Seen(*c, *overdue),
            Event::Killed => EventModel::Killed,
        }
    }
}

/// What to do next.
#[derive(Debug)]
pub enum Act {
    /// Wait for an address.
    ReadUrl,
    /// Open this address in the browser.
    Open(String),
    /// Look whether the program has ended.
    Look,
    /// End the program.
    Kill,
    /// The login is over.
    Stop,
}

pub enum ActModel {
    ReadUrl,
    Open(Seq<char>),
    Look,
    Kill,
    Stop,
}

impl View for Act {
    type V = ActModel;

    open spec fn view(&self) -> ActModel {
        match self {
            Act::ReadUrl => ActModel::ReadUrl,
            Act::Open(u) => ActModel::Open(u@),
            Act::Look => ActModel::Look,
            Act::Kill => ActModel::Kill,
            Act::Stop => ActModel::Stop,
        }
    }
}

/// What is said about an event, and what follows it.
pub open spec fn reaction(e: EventModel) -> (Seq<SayModel>, ActModel) {
    match e {
        EventModel::Started(Ok(_)) => (Seq::empty(), ActModel::ReadUrl),
        EventModel::Started(Err(why)) => (
            flow::note("tailscale login: spawn failed: "@ + why),
            ActModel::Stop,
        ),
        EventModel::Printed(Some(url)) => (
            flow::note("tailscale login: opening "@ + url) + flow::shout(
                false,
                "Tailscale: login required"@,
                "Opening browser to authenticate."@,
                Urgency::Normal,
            ),
            ActModel::Open(url),
        ),
        EventModel::Printed(None) => (
            flow::note("tailscale login: no URL received within 30s"@),
            ActModel::Look,
        ),
        EventModel::Opened => (Seq::empty(), ActModel::Look),
        EventModel::Seen(Child::Running, false) => (Seq::empty(), ActModel::Look),
        EventModel::Seen(Child::Running, true) => (
            flow::note("tailscale login: timed out waiting for auth"@),
            ActModel::Kill,
        ),
        EventModel::Seen(_, _) | EventModel::Killed => (Seq::empty(), ActModel::Stop),
    }
}

/// Takes what came of the last step of a login; gives what is to be said about
/// it, and the next step.
pub fn next(event: Event) -> (r: (Vec<Say>, Act))
    ensures
        (flow::sayings(r.0@), r.1@) == reaction(event@),
{
    let mut says: Vec<Say> = Vec::new();
    assert(flow::sayings(says@) =~= Seq::empty());
    let act = match &event {
        Event::Started(Ok(_)) => Act::ReadUrl,
        Event::Started(Err(why)) => {
            flow::say_log(&mut says, "tailscale login: spawn failed: ".to_string().concat(why));
            Act::Stop
        },
        Event::Printed(Some(url)) => {
            flow::say_log(&mut says, "tailscale login: opening ".to_string().concat(url));
            flow::say_notify(
                &mut says,
                false,
                "Tailscale: login required",
                "Opening browser to authenticate.".to_string(),
                Urgency::Normal,
            );
            Act::Open(url.clone())
        },
        Event::Printed(None) => {
            flow::say_log(&mut says, "tailscale login: no URL received within 30s".to_string());
            Act::Look
        },
        Event::Opened => Act::Look,
        Event::Seen(child, overdue) => match util::after_look(*child, *overdue) {
            Waiting::Again => Act::Look,
            Waiting::Kill => {
                flow::say_log(&mut says, "tailscale login: timed out waiting for auth".to_string());
                Act::Kill
            },
            Waiting::Over(_) => Act::Stop,
        },
        Event::Killed => Act::Stop,
    };
    assert(flow::sayings(says@) =~= reaction(event@).0);
    (says, act)
}

/// Only an address that the program printed is opened, and the user is told.
pub proof fn only_a_printed_address_is_opened(e: EventModel, url: Seq<char>)
    ensures
        reaction(e).1 == ActModel::Open(url) <==> e == EventModel::Printed(Some(url)),
        reaction(e).1 == ActModel::Open(url) ==> reaction(e).0.contains(
            SayModel::Notify(
                "Tailscale: login required"@,
                "Opening browser to authenticate."@,
                Urgency::Normal,
            ),
        ),
{
    if reaction(e).1 == ActModel::Open(url) {
        assert(reaction(e).0[1] == SayModel::Notify(
            "Tailscale: login required"@,
            "Opening browser to authenticate."@,
            Urgency::Normal,
        ));
    }
}

/// A login is ended by force exactly when it still runs and its time is up.
pub proof fn a_login_is_killed_only_when_overdue(e: EventModel)
    ensures
        reaction(e).1 is Kill <==> e == EventModel::Seen(Child::Running, true),
{
}

/// A login reads for an address once it is started, looks at the program after
/// that until it ends, and is over with it or where it could not be started.
pub proof fn a_login_goes_on_until_its_program_ends(why: Seq<char>, child: Child, late: bool)
    ensures
        reaction(EventModel::Started(Ok(()))).1 is ReadUrl,
        reaction(EventModel::Started(Err(why))).1 is Stop,
        reaction(EventModel::Printed(None)).1 is Look,
        reaction(EventModel::Opened).1 is Look,
        reaction(EventModel::Seen(Child::Running, false)).1 is Look,
        !(child is Running) ==> reaction(EventModel::Seen(child, late)).1 is Stop,
        reaction(EventModel::Killed).1 is Stop,
{
}

} // verus!
