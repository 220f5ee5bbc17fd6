//! Programs, times and dates.

use std::cell::RefCell;
use std::path::Path;

use breadcrumbs::calendar::civil_from_days;
use breadcrumbs::util::{
    after_look, command_exists, fmt_epoch, home_dir, local_hhmm, run, run_ok, run_with_stdin,
    timestamp, timestamp_from, Child, Output, Runner, Waiting,
};

/// A machine with two programs: `sh`, which says what it was given, and `date`,
/// which gives a fixed answer.
struct Machine {
    date: Output,
    calls: RefCell<Vec<String>>,
}

impl Machine {
    fn new(date: Output) -> Machine {
        Machine { date, calls: RefCell::new(Vec::new()) }
    }
}

impl Runner for Machine {
    fn run(&self, prog: &str, args: &[&str], stdin: Option<&str>, timeout: u64) -> Output {
        let call = format!("{prog} {} <{} {timeout}s", args.join(" "), stdin.unwrap_or("-"));
        self.calls.borrow_mut().push(call.clone());
        match prog {
            "sh" => answer(&call),
            "date" => self.date.clone(),
            _ => Output::failed(),
        }
    }

    fn command_exists(&self, name: &str) -> bool {
        name == "sh" || name == "date"
    }
}

fn answer(stdout: &str) -> Output {
    Output { success: true, stdout: stdout.to_string(), stderr: String::new() }
}

#[test]
fn fmt_epoch_known_values() {
    assert_eq!(fmt_epoch(0), "1970-01-01 00:00:00");
    // 2001-09-09 01:46:40 UTC
    assert_eq!(fmt_epoch(1_000_000_000), "2001-09-09 01:46:40");
    // 2021-01-01 00:00:00 UTC
    assert_eq!(fmt_epoch(1_609_459_200), "2021-01-01 00:00:00");
    // Leap day 2024-02-29 12:00:00 UTC
    assert_eq!(fmt_epoch(1_709_208_000), "2024-02-29 12:00:00");
}

#[test]
fn fmt_epoch_pre_1970_is_handled() {
    // The split into days and seconds must stay correct for negative epoch
    // seconds (dates before 1970), not just the common positive case.
    assert_eq!(fmt_epoch(-86_400), "1969-12-31 00:00:00");
}

#[test]
fn fmt_epoch_year_and_month_boundaries() {
    assert_eq!(fmt_epoch(1_704_067_199), "2023-12-31 23:59:59");
    assert_eq!(fmt_epoch(1_735_689_600), "2025-01-01 00:00:00");
    // Last second of October (non-leap-day month boundary).
    assert_eq!(fmt_epoch(1_730_419_199), "2024-10-31 23:59:59");
}

/// The programs that are on the disk of this machine. None of them is started.
struct Disk;

impl Runner for Disk {
    fn run(&self, prog: &str, _args: &[&str], _stdin: Option<&str>, _timeout: u64) -> Output {
        assert!(!self.command_exists(prog), "{prog} is there");
        Output::failed()
    }

    fn command_exists(&self, name: &str) -> bool {
        ["/usr/bin", "/bin"].iter().any(|dir| Path::new(dir).join(name).is_file())
    }
}

#[test]
fn command_exists_false_for_bogus_binary() {
    assert!(!command_exists(&Disk, "definitely-not-a-real-binary-xyz123"));
}

#[test]
fn command_exists_true_for_a_real_binary() {
    // `sh` is guaranteed present on any POSIX system this runs on.
    assert!(command_exists(&Disk, "sh"));
}

#[test]
fn run_on_missing_binary_fails_cleanly_instead_of_panicking() {
    let o = run(&Disk, "definitely-not-a-real-binary-xyz123", &[], 1);
    assert!(!o.success);
    assert_eq!(o.stdout, "");
}

#[test]
fn arguments_input_and_timeout_reach_the_program() {
    let m = Machine::new(Output::failed());
    assert_eq!(run(&m, "sh", &["-c", "true"], 7).stdout, "sh -c true <- 7s");
    assert_eq!(run_with_stdin(&m, "sh", &["-s"], Some("exit"), 3).stdout, "sh -s <exit 3s");
    assert!(run_ok(&m, "sh", &[], 1));
    assert!(!run_ok(&m, "nothing", &[], 1));
    assert_eq!(m.calls.borrow().len(), 4);
}

#[test]
fn the_local_time_is_taken_from_date_where_it_answers() {
    let m = Machine::new(answer("2024-05-06 07:08:09\n"));
    assert_eq!(timestamp(&m, 0), "2024-05-06 07:08:09");
    assert_eq!(m.calls.borrow()[0], "date +%Y-%m-%d %H:%M:%S <- 2s");
    // Otherwise UTC serves.
    assert_eq!(timestamp(&Machine::new(Output::failed()), 0), "1970-01-01 00:00:00");
    assert_eq!(timestamp_from(&answer(" \n"), 86_399), "1970-01-01 23:59:59");
    let failed = Output { success: false, stdout: "2024".into(), stderr: String::new() };
    assert_eq!(timestamp_from(&failed, 60), "1970-01-01 00:01:00");
}

#[test]
fn the_time_of_day_is_none_where_date_is_silent() {
    assert_eq!(local_hhmm(&Machine::new(answer("09:30\n"))), Some("09:30".to_string()));
    assert_eq!(local_hhmm(&Machine::new(answer("\n"))), None);
    assert_eq!(local_hhmm(&Machine::new(Output::failed())), None);
}

#[test]
fn the_home_directory_comes_from_the_environment() {
    assert_eq!(home_dir(&Some(b"/home/u".to_vec())), b"/home/u".to_vec());
    assert_eq!(home_dir(&None), b"/root".to_vec());
}

#[test]
fn dates_follow_each_other() {
    assert_eq!(civil_from_days(0), (1970, 1, 1));
    assert_eq!(civil_from_days(-719_468), (0, 3, 1));
    assert_eq!(civil_from_days(11_016), (2000, 2, 29));
    let mut last = civil_from_days(-800_000);
    for d in -799_999i64..800_000 {
        let next = civil_from_days(d);
        assert!(last < next, "day {d}");
        last = next;
    }
}

#[test]
fn different_seconds_have_different_texts() {
    assert_ne!(fmt_epoch(59), fmt_epoch(60));
    assert_eq!(fmt_epoch(253_402_300_800), "10000-01-01 00:00:00");
    assert_eq!(fmt_epoch(-62_167_219_201), "-001-12-31 23:59:59");
}

#[test]
fn a_program_is_killed_only_when_overdue() {
    assert_eq!(after_look(Child::Running, false), Waiting::Again);
    assert_eq!(after_look(Child::Running, true), Waiting::Kill);
    // One that ended in the meantime is not late.
    assert_eq!(after_look(Child::Exited(true), true), Waiting::Over(true));
    assert_eq!(after_look(Child::Exited(false), false), Waiting::Over(false));
    assert_eq!(after_look(Child::Lost, false), Waiting::Over(false));
}

#[test]
fn later_times_are_greater_texts() {
    let times = [0, 59, 60, 3599, 3600, 86_399, 86_400, 951_782_400, 951_868_800, 253_402_300_799];
    for pair in times.windows(2) {
        let (a, b) = (fmt_epoch(pair[0]), fmt_epoch(pair[1]));
        assert_eq!((a.len(), b.len()), (19, 19));
        assert!(a < b, "{a} {b}");
    }
    assert_eq!(fmt_epoch(253_402_300_799), "9999-12-31 23:59:59");
}

#[test]
fn dates_repeat_after_four_hundred_years() {
    assert_eq!(fmt_epoch(1_709_208_000), "2024-02-29 12:00:00");
    assert_eq!(fmt_epoch(1_709_208_000 + 12_622_780_800), "2424-02-29 12:00:00");
    assert_eq!(fmt_epoch(240_779_519_999), "9599-12-31 23:59:59");
    assert_eq!(fmt_epoch(240_779_519_999 + 12_622_780_800), "9999-12-31 23:59:59");
}

#[test]
fn the_ends_of_time_have_texts() {
    assert_eq!(fmt_epoch(i64::MAX), "292277026596-12-04 15:30:07");
    assert!(fmt_epoch(i64::MIN).starts_with('-'));
}
