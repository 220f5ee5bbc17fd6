//! Log entries and desktop notifications.

use vstd::prelude::*;

use crate::text;
use crate::util;
use crate::util::Runner;

verus! {

broadcast use crate::text::lemma_views_push;

#[derive(Copy, Clone, Debug, PartialEq, Eq, Structural)]
pub enum Urgency {
    Low,
    Normal,
    Critical,
}

/// The name of an urgency.
pub open spec fn urgency_name(u: Urgency) -> Seq<char> {
    match u {
        Urgency::Low => "low"@,
        Urgency::Normal => "normal"@,
        Urgency::Critical => "critical"@,
    }
}

/// How long a notification stays, in milliseconds; 0 is until it is dismissed.
pub open spec fn urgency_timeout(u: Urgency) -> Seq<char> {
    match u {
        Urgency::Low => "3500"@,
        Urgency::Normal => "6000"@,
        Urgency::Critical => "0"@,
    }
}

impl Urgency {
    pub fn as_str(self) -> (r: &'static str)
        ensures
            r@ == urgency_name(self),
    {
        match self {
            Urgency::Low => "low",
            Urgency::Normal => "normal",
            Urgency::Critical => "critical",
        }
    }
}

/// A log longer than this, in bytes, is cut.
pub const MAX_LOG_BYTES: u64 = 512 * 1024;

/// What is kept of a log that is cut: its last lines.
pub const KEPT_LOG_LINES: usize = 300;

/// Whether a log of this many bytes is to be cut.
pub fn log_is_full(bytes: u64) -> (r: bool)
    ensures
        r == (bytes > MAX_LOG_BYTES),
{
    bytes > MAX_LOG_BYTES
}

/// The last `n` items of a list, or all where it has fewer.
pub open spec fn last_of(s: Seq<Seq<char>>, n: nat) -> Seq<Seq<char>> {
    if s.len() <= n {
        s
    } else {
        s.skip(s.len() - n)
    }
}

/// What is kept of a log: its last lines, each ended by a line feed.
pub fn cut_log(log: &str) -> (r: String)
    ensures
        r@ == text::joined(last_of(text::lines(log@), KEPT_LOG_LINES as nat), "\n"@) + "\n"@,
{
    let lines = text::split_lines(log);
    let from: usize = if lines.len() <= KEPT_LOG_LINES {
        0
    } else {
        lines.len() - KEPT_LOG_LINES
    };
    assert(text::views(lines@.skip(from as int)) =~= last_of(
        text::lines(log@),
        KEPT_LOG_LINES as nat,
    ));
    text::join_from(&lines, from, "\n").concat("\n")
}

/// A line of the log.
pub fn log_line(timestamp: &str, line: &str) -> (r: String)
    ensures
        r@ == timestamp@ + " "@ + line@ + "\n"@,
{
    timestamp.to_string().concat(" ").concat(line).concat("\n")
}

/// What the log says of a notification.
pub open spec fn entry(summary: Seq<char>, body: Seq<char>, u: Urgency) -> Seq<char> {
    "[notify/"@ + urgency_name(u) + "] "@ + summary + " "@ + (if body.len() == 0 {
        Seq::empty()
    } else {
        "- "@ + body
    })
}

/// The arguments that show a notification.
pub open spec fn notify_args(summary: Seq<char>, body: Seq<char>, u: Urgency) -> Seq<Seq<char>> {
    let args = seq![
        "-a"@,
        "breadcrumbs"@,
        "-u"@,
        urgency_name(u),
        "-t"@,
        urgency_timeout(u),
        "-h"@,
        "string:x-canonical-private-synchronous:breadcrumbs"@,
        summary,
    ];
    if body.len() == 0 {
        args
    } else {
        args.push(body)
    }
}

/// What the log says of a notification.
pub fn notify_entry(summary: &str, body: &str, urgency: Urgency) -> (r: String)
    ensures
        r@ == entry(summary@, body@, urgency),
{
    let head = "[notify/".to_string().concat(urgency.as_str()).concat("] ").concat(
        summary,
    ).concat(" ");
    if body.is_empty() {
        assert(head@ =~= entry(summary@, body@, urgency));
        head
    } else {
        let r = head.concat("- ").concat(body);
        assert(r@ =~= entry(summary@, body@, urgency));
        r
    }
}

/// Shows a desktop notification where `notify-send` is there, and gives back
/// what the log is to say of it.
pub fn notify<R: Runner>(runner: &R, summary: &str, body: &str, urgency: Urgency) -> (r: String)
    ensures
        r@ == entry(summary@, body@, urgency),
        exists|present: bool| #[trigger]
            util::looked_up(runner, "notify-send"@, present) && (present ==> util::did_run(
                runner,
                "notify-send"@,
                notify_args(summary@, body@, urgency),
                5,
            )),
{
    let r = notify_entry(summary, body, urgency);
    if !util::command_exists(runner, "notify-send") {
        assert(util::looked_up(runner, "notify-send"@, false));
        return r;
    }
    assert(util::looked_up(runner, "notify-send"@, true));
    let timeout = match urgency {
        Urgency::Critical => "0",
        Urgency::Normal => "6000",
        Urgency::Low => "3500",
    };
    let name = urgency.as_str();
    if body.is_empty() {
        let args = [
            "-a",
            "breadcrumbs",
            "-u",
            name,
            "-t",
            timeout,
            "-h",
            "string:x-canonical-private-synchronous:breadcrumbs",
            summary,
        ];
        assert(util::strs(args@) =~= notify_args(summary@, body@, urgency));
        let out = util::run(runner, "notify-send", &args, 5);
        assert(util::ran(
            runner,
            "notify-send"@,
            notify_args(summary@, body@, urgency),
            None,
            5,
            out,
        ));
    } else {
        let args = [
            "-a",
            "breadcrumbs",
            "-u",
            name,
            "-t",
            timeout,
            "-h",
            "string:x-canonical-private-synchronous:breadcrumbs",
            summary,
            body,
        ];
        assert(util::strs(args@) =~= notify_args(summary@, body@, urgency));
        let out = util::run(runner, "notify-send", &args, 5);
        assert(util::ran(
            runner,
            "notify-send"@,
            notify_args(summary@, body@, urgency),
            None,
            5,
            out,
        ));
    }
    r
}

/// The last lines are the last ones, in their order, as many as are asked for or
/// all there are.
pub proof fn the_last_lines_are_kept(s: Seq<Seq<char>>, n: nat, i: int)
    ensures
        last_of(s, n).len() == (if s.len() < n {
            s.len()
        } else {
            n
        }),
        0 <= i < last_of(s, n).len() ==> last_of(s, n)[i] == s[s.len() - last_of(s, n).len() + i],
{
}

/// What is logged of a notification names its urgency and holds its summary and
/// body; a notification without a body has one argument less.
pub proof fn a_notification_holds_its_texts(summary: Seq<char>, body: Seq<char>, u: Urgency)
    ensures
        ({
            let a = notify_args(summary, body, u);
            &&& a[3] == urgency_name(u)
            &&& a[5] == urgency_timeout(u)
            &&& a[8] == summary
            &&& body.len() == 0 ==> a.len() == 9
            &&& body.len() > 0 ==> a.len() == 10 && a[9] == body
        }),
        body.len() > 0 ==> entry(summary, body, u) == "[notify/"@ + urgency_name(u) + "] "@
            + summary + " - "@ + body,
        urgency_name(Urgency::Low) == "low"@,
        urgency_name(Urgency::Normal) == "normal"@,
        urgency_name(Urgency::Critical) == "critical"@,
        urgency_timeout(Urgency::Low) == "3500"@,
        urgency_timeout(Urgency::Normal) == "6000"@,
        urgency_timeout(Urgency::Critical) == "0"@,
{
    if body.len() > 0 {
        reveal_strlit(" ");
        reveal_strlit("- ");
        reveal_strlit(" - ");
        assert(" "@ + ("- "@ + body) =~= " - "@ + body);
        let head = "[notify/"@ + urgency_name(u) + "] "@ + summary;
        assert(head + " "@ + ("- "@ + body) =~= head + (" "@ + ("- "@ + body)));
        assert(head + (" - "@ + body) =~= head + " - "@ + body);
    }
}

/// A log may grow to half a megabyte, and three hundred lines of it are kept.
pub proof fn a_log_has_its_limits()
    ensures
        MAX_LOG_BYTES == 524_288,
        KEPT_LOG_LINES == 300,
{
}

} // verus!
