use timer::commands::{start, stop, StartAction, StopAction};
use timer::duration::{format_duration, nat_to_text};
use timer::stamp::{stamp_text, Stamp};
use timer::store::{drop_last_line, last_line};
use timer::timer::{get_current_timer, parse_timer_line, trim_text, TimerError};

const RUNNING: &str = "a:  1 seconds\nCurrent: work Tue, 1 Jul 2003 10:52:37 +0200\n";
const STARTED: i64 = 1057049557;

#[test]
fn zero_duration_is_empty() {
    assert_eq!(format_duration(0), "");
}

#[test]
fn ninety_seconds() {
    assert_eq!(format_duration(90), " 1 minutes 30 seconds");
}

#[test]
fn one_week_three_days() {
    assert_eq!(format_duration(10 * 86400), " 1 weeks 3 days 0 hours 0 minutes 0 seconds");
}

#[test]
fn whole_units_from_first_nonzero() {
    let secs = 2 * 604800 + 0 * 86400 + 5 * 3600 + 0 * 60 + 7;
    assert_eq!(format_duration(secs), " 2 weeks 0 days 5 hours 0 minutes 7 seconds");
    assert_eq!(format_duration(3 * 3600 + 5), " 3 hours 0 minutes 5 seconds");
    assert_eq!(format_duration(59), " 59 seconds");
}

#[test]
fn negative_duration() {
    assert_eq!(format_duration(-90), " -1 minutes -30 seconds");
    assert_eq!(format_duration(-3600), " -1 hours 0 minutes 0 seconds");
}

#[test]
fn large_duration() {
    assert_eq!(
        format_duration(i128::MIN),
        format!(" -{} weeks -{} days -{} hours -{} minutes -{} seconds",
            (1u128 << 127) / 604800, ((1u128 << 127) / 86400) % 7,
            ((1u128 << 127) / 3600) % 24, ((1u128 << 127) / 60) % 60, (1u128 << 127) % 60)
    );
}

#[test]
fn decimal_text() {
    assert_eq!(nat_to_text(0), "0");
    assert_eq!(nat_to_text(1234567890), "1234567890");
    assert_eq!(nat_to_text(u128::MAX), u128::MAX.to_string());
}

#[test]
fn last_line_of_texts() {
    assert_eq!(last_line("a\nb\n"), "b\n");
    assert_eq!(last_line("a\nb"), "b");
    assert_eq!(last_line(""), "");
    assert_eq!(last_line("only\n"), "only\n");
    assert_eq!(drop_last_line("a\nb\n"), "a\n");
    assert_eq!(drop_last_line("a\nb"), "a\n");
    assert_eq!(drop_last_line(""), "");
    assert_eq!(drop_last_line("only\n"), "");
}

#[test]
fn trims_white_space() {
    assert_eq!(trim_text("  x y \n"), "x y");
    assert_eq!(trim_text("\u{3000}\t"), "");
}

#[test]
fn reads_timer_line() {
    let t = parse_timer_line("Current: work Tue, 1 Jul 2003 10:52:37 +0200\n").unwrap().unwrap();
    assert_eq!(t.name, "work");
    assert_eq!(t.start, Stamp { secs: STARTED, offset: 7200 });
}

#[test]
fn other_lines_hold_no_timer() {
    assert!(parse_timer_line("").unwrap().is_none());
    assert!(parse_timer_line("work:  5 seconds\n").unwrap().is_none());
    assert!(parse_timer_line("Current:\n").unwrap().is_none());
}

#[test]
fn malformed_timer_lines() {
    assert_eq!(parse_timer_line("Current:").unwrap_err(), TimerError::MissingName);
    assert_eq!(parse_timer_line("Current: work\n").unwrap_err(), TimerError::MissingStart);
    assert_eq!(parse_timer_line("Current: work yesterday\n").unwrap_err(), TimerError::BadStart);
}

#[test]
fn start_appends_current_line() {
    let state = "a:  1 seconds\n";
    match start(state, "work", "Fri, 15 May 2015 00:00:00 +0000").unwrap() {
        StartAction::Append(l) => {
            assert_eq!(l, "Current: work Fri, 15 May 2015 00:00:00 +0000\n");
            let after = format!("{}{}", state, l);
            assert_eq!(last_line(&after), l);
            assert_eq!(drop_last_line(&after), state);
        }
        other => panic!("unexpected {:?}", other),
    }
}

#[test]
fn start_while_running_reports_it() {
    match start(RUNNING, "other", "Fri, 15 May 2015 00:00:00 +0000").unwrap() {
        StartAction::AlreadyRunning(n) => assert_eq!(n, "work"),
        other => panic!("unexpected {:?}", other),
    }
}

#[test]
fn stop_replaces_last_line() {
    match stop(RUNNING, STARTED + 90, 500).unwrap() {
        StopAction::Replace(l) => {
            assert_eq!(l, "work:  1 minutes 30 seconds\n");
            let after = format!("{}{}", drop_last_line(RUNNING), l);
            assert_eq!(after, "a:  1 seconds\nwork:  1 minutes 30 seconds\n");
            assert_eq!(after.lines().count(), RUNNING.lines().count());
        }
        other => panic!("unexpected {:?}", other),
    }
}

#[test]
fn stop_before_start_truncates_toward_zero() {
    match stop(RUNNING, STARTED - 1, 500_000_000).unwrap() {
        StopAction::Replace(l) => assert_eq!(l, "work: \n"),
        other => panic!("unexpected {:?}", other),
    }
}

#[test]
fn stop_without_timer() {
    assert!(matches!(stop("a:  1 seconds\n", STARTED, 0).unwrap(), StopAction::NoTimer));
}

#[test]
fn stop_on_empty_state() {
    assert!(matches!(stop("", STARTED, 0).unwrap(), StopAction::NoTimer));
}

#[test]
fn stop_on_corrupt_state() {
    assert_eq!(stop("Current: work garbage\n", STARTED, 0).unwrap_err(), TimerError::BadStart);
}

#[test]
fn writes_rfc2822() {
    assert_eq!(stamp_text(1431648000, 0).unwrap(), "Fri, 15 May 2015 00:00:00 +0000");
    assert!(stamp_text(i64::MAX, 0).is_none());
    assert!(stamp_text(0, 1_000_000_000).is_none());
}

#[test]
fn started_line_reads_back() {
    let text = stamp_text(STARTED, 123).unwrap();
    let line = match start("", "work", &text).unwrap() {
        StartAction::Append(l) => l,
        other => panic!("unexpected {:?}", other),
    };
    let t = get_current_timer(&line).unwrap().unwrap();
    assert_eq!(t.name, "work");
    assert_eq!(t.start, Stamp { secs: STARTED, offset: 0 });
}
