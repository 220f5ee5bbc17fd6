//! Running other programs, and the time as text.
//!
//! What a program prints is not this crate's to decide: every call goes through
//! a [`Runner`], and each contract says which program was run with which
//! arguments and what is made of whatever came back.

use vstd::arithmetic::div_mod;
use vstd::prelude::*;
use vstd::string::*;

use crate::calendar;
use crate::text;

verus! {

/// The bytes behind an optional byte string.
pub open spec fn opt_bytes(o: Option<Vec<u8>>) -> Option<Seq<u8>> {
    match o {
        Some(v) => Some(v@),
        None => None,
    }
}

/// The home directory for a value of `$HOME`.
pub open spec fn home_path(env: Option<Seq<u8>>) -> Seq<u8> {
    match env {
        Some(home) => home,
        None => "/root".spec_bytes(),
    }
}

/// The home directory: the value of `$HOME`, or `/root` where it is not set.
pub fn home_dir(env: &Option<Vec<u8>>) -> (r: Vec<u8>)
    ensures
        r@ == home_path(opt_bytes(*env)),
{
    match env {
        Some(home) => home.clone(),
        None => {
            let mut root: Vec<u8> = Vec::new();
            text::push_bytes(&mut root, "/root");
            root
        },
    }
}

/// What came of running a program.
#[derive(Debug)]
pub struct Output {
    pub success: bool,
    pub stdout: String,
    pub stderr: String,
}

impl Clone for Output {
    fn clone(&self) -> (r: Output)
        ensures
            r == *self,
    {
        Output {
            success: self.success,
            stdout: self.stdout.clone(),
            stderr: self.stderr.clone(),
        }
    }
}

impl Output {
    /// A run that did not happen: no success and nothing printed.
    pub fn failed() -> (r: Output)
        ensures
            !r.success,
            r.stdout@ == Seq::<char>::empty(),
            r.stderr@ == Seq::<char>::empty(),
    {
        Output { success: false, stdout: String::new(), stderr: String::new() }
    }
}

/// A program that was started, as it was last seen.
#[derive(Debug, Clone, Copy, PartialEq, Eq, Structural)]
pub enum Child {
    /// It ended, with or without success.
    Exited(bool),
    Running,
    /// Nothing can be learnt about it any more.
    Lost,
}

/// What to do about a program that was started.
#[derive(Debug, Clone, Copy, PartialEq, Eq, Structural)]
pub enum Waiting {
    /// Look again a little later.
    Again,
    /// End it: it took too long.
    Kill,
    /// It is over; whether it succeeded.
    Over(bool),
}

/// What to do about a program that was seen like this: one that runs is let run
/// until its time is up, and only one that said so itself has succeeded.
pub fn after_look(child: Child, overdue: bool) -> (r: Waiting)
    ensures
        r == (match child {
            Child::Exited(success) => Waiting::Over(success),
            Child::Running => if overdue {
                Waiting::Kill
            } else {
                Waiting::Again
            },
            Child::Lost => Waiting::Over(false),
        }),
{
    match child {
        Child::Exited(success) => Waiting::Over(success),
        Child::Running => if overdue {
            Waiting::Kill
        } else {
            Waiting::Again
        },
        Child::Lost => Waiting::Over(false),
    }
}

/// The way out of this crate to other programs: starting one (with a hard
/// timeout, in seconds) and asking whether there is one of that name.
pub trait Runner {
    fn run(&self, prog: &str, args: &[&str], stdin: Option<&str>, timeout: u64) -> Output;

    fn command_exists(&self, name: &str) -> bool;
}

/// The characters behind each string slice of a sequence.
pub open spec fn strs(v: Seq<&str>) -> Seq<Seq<char>> {
    v.map_values(|s: &str| s@)
}

/// `out` is what `runner` may give back for this program, arguments, input and
/// timeout.
pub open spec fn ran<R: Runner>(
    runner: &R,
    prog: Seq<char>,
    args: Seq<Seq<char>>,
    stdin: Option<Seq<char>>,
    timeout: u64,
    out: Output,
) -> bool {
    exists|p: &str, a: &[&str], i: Option<&str>|
        p@ == prog && strs(a@) == args && text::opt_str_view(i) == stdin && #[trigger] call_ensures(
            R::run,
            (runner, p, a, i, timeout),
            out,
        )
}

/// `runner` may have run this program with these arguments.
pub open spec fn did_run<R: Runner>(
    runner: &R,
    prog: Seq<char>,
    args: Seq<Seq<char>>,
    timeout: u64,
) -> bool {
    exists|out: Output| #[trigger] ran(runner, prog, args, None, timeout, out)
}

/// `found` is what `runner` may answer when asked for a program of that name.
pub open spec fn looked_up<R: Runner>(runner: &R, name: Seq<char>, found: bool) -> bool {
    exists|n: &str| n@ == name && #[trigger] call_ensures(R::command_exists, (runner, n), found)
}

/// Whether there is a program of that name.
pub fn command_exists<R: Runner>(runner: &R, name: &str) -> (r: bool)
    ensures
        looked_up(runner, name@, r),
{
    runner.command_exists(name)
}

/// Runs a program with nothing on its standard input.
pub fn run<R: Runner>(runner: &R, prog: &str, args: &[&str], timeout: u64) -> (r: Output)
    ensures
        ran(runner, prog@, strs(args@), None, timeout, r),
{
    run_with_stdin(runner, prog, args, None, timeout)
}

/// Runs a program with `stdin` on its standard input.
pub fn run_with_stdin<R: Runner>(
    runner: &R,
    prog: &str,
    args: &[&str],
    stdin: Option<&str>,
    timeout: u64,
) -> (r: Output)
    ensures
        ran(runner, prog@, strs(args@), text::opt_str_view(stdin), timeout, r),
{
    runner.run(prog, args, stdin, timeout)
}

/// Runs a program and tells whether it succeeded.
pub fn run_ok<R: Runner>(runner: &R, prog: &str, args: &[&str], timeout: u64) -> (r: bool)
    ensures
        exists|out: Output|
            #[trigger] ran(runner, prog@, strs(args@), None, timeout, out) && r == out.success,
{
    let out = run(runner, prog, args, timeout);
    out.success
}

// ---- The time as text ----------------------------------------------------

/// A date without its year and a time of day, as `-MM-DD HH:MM:SS`.
pub open spec fn within_year(mo: int, d: int, h: int, mi: int, s: int) -> Seq<char> {
    "-"@ + text::padded(mo, 2) + "-"@ + text::padded(d, 2) + " "@ + text::padded(h, 2) + ":"@
        + text::padded(mi, 2) + ":"@ + text::padded(s, 2)
}

/// A date and a time of day, as `YYYY-MM-DD HH:MM:SS`.
pub open spec fn stamp(y: int, mo: int, d: int, h: int, mi: int, s: int) -> Seq<char> {
    text::padded(y, 4) + within_year(mo, d, h, mi, s)
}

/// `t` is the UTC date and time `secs` seconds after the start of 1970.
pub open spec fn is_utc_text(secs: int, t: Seq<char>) -> bool {
    exists|y: int, mo: int, d: int|
        {
            &&& #[trigger] calendar::valid_date(y, mo, d)
            &&& calendar::day_number(y, mo, d) == secs / 86_400
            &&& t == stamp(
                y,
                mo,
                d,
                (secs % 86_400) / 3600,
                (secs % 3600) / 60,
                secs % 60,
            )
        }
}

/// The UTC date and time `secs` seconds after the start of 1970.
pub fn fmt_epoch(secs: i64) -> (r: String)
    ensures
        is_utc_text(secs as int, r@),
{
    let days: i64 = if secs >= 0 {
        secs / 86_400
    } else {
        -((-(secs + 1)) / 86_400) - 1
    };
    assert(days as int == secs as int / 86_400);
    let tod: i64 = if secs >= 0 {
        secs % 86_400
    } else {
        86_399 - (-(secs + 1)) % 86_400
    };
    assert(tod as int == secs as int % 86_400);
    let h: i64 = tod / 3600;
    let mi: i64 = (tod % 3600) / 60;
    let s: i64 = tod % 60;
    proof {
        lemma_time_of_day(secs as int);
    }
    let (y, mo, d) = calendar::civil_from_days(days);
    let mut rest = "-".to_string();
    rest.append(text::to_padded(mo, 2).as_str());
    rest.append("-");
    rest.append(text::to_padded(d, 2).as_str());
    rest.append(" ");
    rest.append(text::to_padded(h, 2).as_str());
    rest.append(":");
    rest.append(text::to_padded(mi, 2).as_str());
    rest.append(":");
    rest.append(text::to_padded(s, 2).as_str());
    let mut r = text::to_padded(y, 4);
    r.append(rest.as_str());
    assert(calendar::valid_date(y as int, mo as int, d as int));
    r
}

proof fn lemma_time_of_day(secs: int)
    ensures
        (secs % 86_400) % 3600 == secs % 3600,
        (secs % 86_400) % 60 == secs % 60,
        secs - (secs / 86_400) * 86_400 == secs % 86_400,
{
}

/// Only one text is the date and time of a second.
pub proof fn utc_text_is_unique(secs: int, a: Seq<char>, b: Seq<char>)
    requires
        is_utc_text(secs, a),
        is_utc_text(secs, b),
    ensures
        a == b,
{
    let (y, mo, d) = choose|y: int, mo: int, d: int|
        {
            &&& #[trigger] calendar::valid_date(y, mo, d)
            &&& calendar::day_number(y, mo, d) == secs / 86_400
            &&& a == stamp(y, mo, d, (secs % 86_400) / 3600, (secs % 3600) / 60, secs % 60)
        };
    let (y2, mo2, d2) = choose|y: int, mo: int, d: int|
        {
            &&& #[trigger] calendar::valid_date(y, mo, d)
            &&& calendar::day_number(y, mo, d) == secs / 86_400
            &&& b == stamp(y, mo, d, (secs % 86_400) / 3600, (secs % 3600) / 60, secs % 60)
        };
    calendar::dates_are_in_order(y, mo, d, y2, mo2, d2);
}

/// The numbers of a date and a time of day have the digits that a stamp gives
/// them.
spec fn fits_stamp(y: int, mo: int, d: int, h: int, mi: int, s: int) -> bool {
    0 <= y < 10_000 && 0 <= mo < 100 && 0 <= d < 100 && 0 <= h < 100 && 0 <= mi < 100 && 0 <= s
        < 100
}

/// Of two texts that begin with numbers of one width, the numbers decide, and
/// where these are equal what follows.
proof fn lemma_numbers_first(
    m: int,
    n: int,
    width: nat,
    sep: Seq<char>,
    x: Seq<char>,
    y: Seq<char>,
)
    requires
        0 <= m,
        0 <= n,
        width == 2 && m < 100 && n < 100 || width == 4 && m < 10_000 && n < 10_000,
    ensures
        m < n ==> text::before(
            sep + (text::padded(m, width) + x),
            sep + (text::padded(n, width) + y),
        ),
        m == n && text::before(x, y) ==> text::before(
            sep + (text::padded(m, width) + x),
            sep + (text::padded(n, width) + y),
        ),
{
    text::lemma_padded_len(m);
    text::lemma_padded_len(n);
    let a = text::padded(m, width);
    let b = text::padded(n, width);
    text::lemma_before_prefix(sep, sep, a + x, b + y);
    text::lemma_before_prefix(a, b, x, y);
    if m < n {
        text::lemma_padded_in_order(m, n, width);
    }
}

/// A stamp, grouped from its end.
#[verifier::rlimit(40)]
proof fn lemma_stamp(y: int, mo: int, d: int, h: int, mi: int, s: int) -> (parts: Seq<Seq<char>>)
    requires
        fits_stamp(y, mo, d, h, mi, s),
    ensures
        parts.len() == 6,
        parts[5] == ":"@ + (text::padded(s, 2) + Seq::<char>::empty()),
        parts[4] == ":"@ + (text::padded(mi, 2) + parts[5]),
        parts[3] == " "@ + (text::padded(h, 2) + parts[4]),
        parts[2] == "-"@ + (text::padded(d, 2) + parts[3]),
        parts[1] == "-"@ + (text::padded(mo, 2) + parts[2]),
        parts[0] == Seq::<char>::empty() + (text::padded(y, 4) + parts[1]),
        parts[0] == stamp(y, mo, d, h, mi, s),
        parts[0].len() == 19,
{
    let p5 = ":"@ + (text::padded(s, 2) + Seq::<char>::empty());
    let p4 = ":"@ + (text::padded(mi, 2) + p5);
    let p3 = " "@ + (text::padded(h, 2) + p4);
    let p2 = "-"@ + (text::padded(d, 2) + p3);
    let p1 = "-"@ + (text::padded(mo, 2) + p2);
    let p0 = Seq::<char>::empty() + (text::padded(y, 4) + p1);
    text::lemma_padded_len(y);
    text::lemma_padded_len(mo);
    text::lemma_padded_len(d);
    text::lemma_padded_len(h);
    text::lemma_padded_len(mi);
    text::lemma_padded_len(s);
    reveal_strlit("-");
    reveal_strlit(" ");
    reveal_strlit(":");
    assert(p0 =~= stamp(y, mo, d, h, mi, s));
    seq![p0, p1, p2, p3, p4, p5]
}

/// Stamps are in order as their numbers are, the greatest unit first.
proof fn lemma_stamps_in_order(
    y: int,
    mo: int,
    d: int,
    h: int,
    mi: int,
    s: int,
    y2: int,
    mo2: int,
    d2: int,
    h2: int,
    mi2: int,
    s2: int,
)
    requires
        fits_stamp(y, mo, d, h, mi, s),
        fits_stamp(y2, mo2, d2, h2, mi2, s2),
        y < y2 || y == y2 && (mo < mo2 || mo == mo2 && (d < d2 || d == d2 && (h < h2 || h == h2 && (
        mi < mi2 || mi == mi2 && s < s2)))),
    ensures
        text::before(stamp(y, mo, d, h, mi, s), stamp(y2, mo2, d2, h2, mi2, s2)),
{
    let p = lemma_stamp(y, mo, d, h, mi, s);
    let q = lemma_stamp(y2, mo2, d2, h2, mi2, s2);
    let none = Seq::<char>::empty();
    lemma_numbers_first(s, s2, 2, ":"@, none, none);
    lemma_numbers_first(mi, mi2, 2, ":"@, p[5], q[5]);
    lemma_numbers_first(h, h2, 2, " "@, p[4], q[4]);
    lemma_numbers_first(d, d2, 2, "-"@, p[3], q[3]);
    lemma_numbers_first(mo, mo2, 2, "-"@, p[2], q[2]);
    lemma_numbers_first(y, y2, 4, none, p[1], q[1]);
}

/// The hour, minute and second of a time.
proof fn lemma_clock(secs: int)
    ensures
        0 <= secs % 86_400 < 86_400,
        secs % 3600 == (secs % 86_400) % 3600,
        secs % 60 == (secs % 86_400) % 60,
        0 <= (secs % 86_400) / 3600 < 24,
        0 <= (secs % 3600) / 60 < 60,
        0 <= secs % 60 < 60,
{
    div_mod::lemma_mod_mod(secs, 3600, 24);
    div_mod::lemma_mod_mod(secs, 60, 1440);
}

/// A later time is on a later day, or later on the same day.
proof fn lemma_days_in_order(a: int, b: int)
    requires
        0 <= a < b <= 253_402_300_799,
    ensures
        0 <= a / 86_400 <= b / 86_400 <= 2_932_896,
        a / 86_400 == b / 86_400 ==> a % 86_400 < b % 86_400,
{
    div_mod::lemma_fundamental_div_mod(a, 86_400);
    div_mod::lemma_fundamental_div_mod(b, 86_400);
}

/// Later on a day, the hour is later, or the minute, or the second.
proof fn lemma_clock_in_order(t: int, u: int)
    requires
        0 <= t < u < 86_400,
    ensures
        t / 3600 <= u / 3600,
        t / 3600 == u / 3600 ==> (t % 3600) / 60 <= (u % 3600) / 60,
        t / 3600 == u / 3600 && (t % 3600) / 60 == (u % 3600) / 60 ==> t % 60 < u % 60,
{
    let (m, n) = (t % 3600, u % 3600);
    div_mod::lemma_fundamental_div_mod(t, 3600);
    div_mod::lemma_fundamental_div_mod(u, 3600);
    div_mod::lemma_fundamental_div_mod(m, 60);
    div_mod::lemma_fundamental_div_mod(n, 60);
    div_mod::lemma_mod_mod(t, 60, 60);
    div_mod::lemma_mod_mod(u, 60, 60);
}

/// From 1970 to the end of the year 9999, a date and time has 19 characters, and
/// a later one is greater as a text.
#[verifier::rlimit(40)]
pub proof fn utc_texts_are_in_order(a: int, b: int, s: Seq<char>, t: Seq<char>)
    requires
        0 <= a < b <= 253_402_300_799,
        is_utc_text(a, s),
        is_utc_text(b, t),
    ensures
        s.len() == 19,
        t.len() == 19,
        text::before(s, t),
{
    let (y, mo, d) = choose|y: int, mo: int, d: int|
        {
            &&& #[trigger] calendar::valid_date(y, mo, d)
            &&& calendar::day_number(y, mo, d) == a / 86_400
            &&& s == stamp(y, mo, d, (a % 86_400) / 3600, (a % 3600) / 60, a % 60)
        };
    let (y2, mo2, d2) = choose|y: int, mo: int, d: int|
        {
            &&& #[trigger] calendar::valid_date(y, mo, d)
            &&& calendar::day_number(y, mo, d) == b / 86_400
            &&& t == stamp(y, mo, d, (b % 86_400) / 3600, (b % 3600) / 60, b % 60)
        };
    calendar::year_is_within(y, mo, d);
    calendar::year_is_within(y2, mo2, d2);
    calendar::dates_are_in_order(y, mo, d, y2, mo2, d2);
    let (h, mi, sec) = ((a % 86_400) / 3600, (a % 3600) / 60, a % 60);
    let (h2, mi2, sec2) = ((b % 86_400) / 3600, (b % 3600) / 60, b % 60);
    lemma_clock(a);
    lemma_clock(b);
    lemma_days_in_order(a, b);
    if a / 86_400 == b / 86_400 {
        lemma_clock_in_order(a % 86_400, b % 86_400);
    }
    let p = lemma_stamp(y, mo, d, h, mi, sec);
    let q = lemma_stamp(y2, mo2, d2, h2, mi2, sec2);
    lemma_stamps_in_order(y, mo, d, h, mi, sec, y2, mo2, d2, h2, mi2, sec2);
}

#[verifier::rlimit(40)]
proof fn lemma_four_hundred_years(secs: int)
    ensures
        (secs + 12_622_780_800) / 86_400 == secs / 86_400 + 146_097,
        (secs + 12_622_780_800) % 86_400 == secs % 86_400,
        (secs + 12_622_780_800) % 3600 == secs % 3600,
        (secs + 12_622_780_800) % 60 == secs % 60,
{
    div_mod::lemma_hoist_over_denominator(secs, 146_097, 86_400);
    div_mod::lemma_mod_multiples_vanish(146_097, secs, 86_400);
    div_mod::lemma_mod_multiples_vanish(3_506_328, secs, 3600);
    div_mod::lemma_mod_multiples_vanish(210_379_680, secs, 60);
}

/// Four hundred years on, which is 12,622,780,800 seconds, the date and time is
/// the same but for the year.
pub proof fn utc_texts_repeat(secs: int, t: Seq<char>, later: Seq<char>)
    requires
        is_utc_text(secs, t),
        is_utc_text(secs + 12_622_780_800, later),
    ensures
        exists|y: int, mo: int, d: int|
            {
                let rest = within_year(
                    mo,
                    d,
                    (secs % 86_400) / 3600,
                    (secs % 3600) / 60,
                    secs % 60,
                );
                &&& #[trigger] calendar::valid_date(y, mo, d)
                &&& t == text::padded(y, 4) + rest
                &&& later == text::padded(y + 400, 4) + rest
            },
{
    let (y, mo, d) = choose|y: int, mo: int, d: int|
        {
            &&& #[trigger] calendar::valid_date(y, mo, d)
            &&& calendar::day_number(y, mo, d) == secs / 86_400
            &&& t == stamp(y, mo, d, (secs % 86_400) / 3600, (secs % 3600) / 60, secs % 60)
        };
    calendar::dates_repeat(y, mo, d);
    let then = secs + 12_622_780_800;
    lemma_four_hundred_years(secs);
    assert(calendar::valid_date(y + 400, mo, d));
    let same = stamp(y + 400, mo, d, (then % 86_400) / 3600, (then % 3600) / 60, then % 60);
    assert(is_utc_text(then, same));
    utc_text_is_unique(then, same, later);
    assert(calendar::valid_date(y, mo, d));
}

/// `t` is what the clock shows: what `date` printed, or the UTC text of `now`
/// where it failed or printed nothing.
pub open spec fn is_timestamp(date: Output, now: int, t: Seq<char>) -> bool {
    if date.success && text::trimmed(date.stdout@).len() > 0 {
        t == text::trimmed(date.stdout@)
    } else {
        is_utc_text(now, t)
    }
}

/// What the clock shows, from what `date` printed and the seconds since the
/// start of 1970.
pub fn timestamp_from(date: &Output, now: i64) -> (r: String)
    ensures
        is_timestamp(*date, now as int, r@),
{
    if date.success {
        let t = text::trim(date.stdout.as_str());
        if !t.as_str().is_empty() {
            return t;
        }
    }
    fmt_epoch(now)
}

/// Local "YYYY-MM-DD HH:MM:SS" as `date` prints it, or the UTC text of `now`.
pub fn timestamp<R: Runner>(runner: &R, now: i64) -> (r: String)
    ensures
        exists|out: Output|
            #[trigger] ran(runner, "date"@, seq!["+%Y-%m-%d %H:%M:%S"@], None, 2, out)
                && is_timestamp(out, now as int, r@),
{
    let args = ["+%Y-%m-%d %H:%M:%S"];
    assert(strs(args@) =~= seq!["+%Y-%m-%d %H:%M:%S"@]);
    let out = run(runner, "date", &args, 2);
    timestamp_from(&out, now)
}

/// The local time as `date` printed it, where it printed one.
pub open spec fn clock_text(date: Output) -> Option<Seq<char>> {
    if date.success && text::trimmed(date.stdout@).len() > 0 {
        Some(text::trimmed(date.stdout@))
    } else {
        None
    }
}

/// Local "HH:MM" as `date` prints it, or `None` where it cannot be read.
pub fn local_hhmm<R: Runner>(runner: &R) -> (r: Option<String>)
    ensures
        exists|out: Output|
            #[trigger] ran(runner, "date"@, seq!["+%H:%M"@], None, 2, out) && text::opt_view(r)
                == clock_text(out),
{
    let args = ["+%H:%M"];
    assert(strs(args@) =~= seq!["+%H:%M"@]);
    let out = run(runner, "date", &args, 2);
    if out.success {
        let t = text::trim(out.stdout.as_str());
        if !t.as_str().is_empty() {
            return Some(t);
        }
    }
    None
}

/// The time is what the program for it says, without space around it, unless it
/// failed or said nothing.
pub proof fn a_silent_clock_tells_nothing(date: Output, now: int, t: Seq<char>)
    ensures
        ({
            let said = text::trimmed(date.stdout@);
            &&& date.success && said.len() > 0 ==> clock_text(date) == Some(said) && (is_timestamp(
                date,
                now,
                t,
            ) <==> t == said)
            &&& !date.success || said.len() == 0 ==> clock_text(date) is None && (is_timestamp(
                date,
                now,
                t,
            ) <==> is_utc_text(now, t))
        }),
{
}

} // verus!
