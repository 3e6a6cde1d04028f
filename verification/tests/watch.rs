use tide::watch::{
    after_launch, lock_path, parse_lock_pid, parse_watch_args, resolve_timeout, step_watcher,
    WatchAction, WatchEvent, WatchSignal, WatchState,
};

fn args(list: &[&str]) -> Vec<String> {
    list.iter().map(|s| s.to_string()).collect()
}

fn some(s: &str) -> Option<String> {
    Some(s.to_string())
}

#[test]
fn watch_args_are_read() {
    let (tty, timeout) = parse_watch_args(&args(&["tide-watch", "--tty", "/dev/pts/3", "--timeout", "42"]));
    assert_eq!(tty, some("/dev/pts/3"));
    assert_eq!(timeout, some("42"));
}

#[test]
fn watch_args_missing() {
    assert_eq!(parse_watch_args(&args(&["tide-watch"])), (None, None));
    assert_eq!(parse_watch_args(&args(&[])), (None, None));
}

#[test]
fn watch_flag_without_value_clears_it() {
    let (tty, timeout) = parse_watch_args(&args(&["w", "--tty", "/dev/tty1", "--tty"]));
    assert_eq!(tty, None);
    assert_eq!(timeout, None);
}

#[test]
fn later_watch_flag_wins_and_values_are_skipped() {
    let (tty, timeout) =
        parse_watch_args(&args(&["w", "--tty", "--timeout", "--timeout", "9", "--tty", "/dev/b"]));
    assert_eq!(tty, some("/dev/b"));
    assert_eq!(timeout, some("9"));
}

#[test]
fn timeout_from_command_line() {
    assert_eq!(resolve_timeout(&some("120"), &some("7")), 120);
    assert_eq!(resolve_timeout(&some("+3"), &None), 3);
}

#[test]
fn timeout_falls_back_to_environment_then_five() {
    assert_eq!(resolve_timeout(&some("soon"), &some("7")), 7);
    assert_eq!(resolve_timeout(&None, &some("30")), 30);
    assert_eq!(resolve_timeout(&None, &some("-1")), 5);
    assert_eq!(resolve_timeout(&some(" 4"), &some("")), 5);
    assert_eq!(resolve_timeout(&None, &None), 5);
    assert_eq!(resolve_timeout(&some("18446744073709551616"), &None), 5);
    assert_eq!(resolve_timeout(&some("18446744073709551615"), &None), u64::MAX);
}

#[test]
fn lock_path_replaces_slashes() {
    assert_eq!(lock_path("/dev/pts/3"), "/tmp/tide-_dev_pts_3.pid");
    assert_eq!(lock_path("tty1"), "/tmp/tide-tty1.pid");
    assert_eq!(lock_path(""), "/tmp/tide-.pid");
    assert_eq!(lock_path("/d\u{e9}v/"), "/tmp/tide-_d\u{e9}v_.pid");
}

#[test]
fn lock_pid_is_parsed() {
    assert_eq!(parse_lock_pid("1234\n"), Some(1234));
    assert_eq!(parse_lock_pid("  -7 \t"), Some(-7));
    assert_eq!(parse_lock_pid(""), None);
    assert_eq!(parse_lock_pid("12 34"), None);
    assert_eq!(parse_lock_pid("2147483648"), None);
    assert_eq!(parse_lock_pid("-2147483648"), Some(i32::MIN));
}

use WatchAction::{Exit, LaunchRenderer, ReapChildren, ReturnTerminal, ReturnTerminalAndExit, Wait};
use WatchSignal::{Arm, ChildExited, Disarm, Other, Terminate};
use WatchState::{Armed, Disarmed, Rendering};

fn sig(s: WatchSignal) -> WatchEvent {
    WatchEvent::Signal(s)
}

#[test]
fn disarmed_transitions() {
    assert_eq!(step_watcher(Disarmed, sig(Arm)), (Armed, Wait));
    assert_eq!(step_watcher(Disarmed, sig(Disarm)), (Disarmed, Wait));
    assert_eq!(step_watcher(Disarmed, sig(ChildExited)), (Disarmed, ReapChildren));
    assert_eq!(step_watcher(Disarmed, sig(Terminate)), (Disarmed, Exit));
    assert_eq!(step_watcher(Disarmed, sig(Other)), (Disarmed, Wait));
    assert_eq!(step_watcher(Disarmed, WatchEvent::Disconnected), (Disarmed, Exit));
}

#[test]
fn armed_transitions() {
    assert_eq!(step_watcher(Armed, sig(Arm)), (Armed, Wait));
    assert_eq!(step_watcher(Armed, sig(Disarm)), (Disarmed, Wait));
    assert_eq!(step_watcher(Armed, sig(ChildExited)), (Armed, ReapChildren));
    assert_eq!(step_watcher(Armed, sig(Terminate)), (Armed, Exit));
    assert_eq!(step_watcher(Armed, WatchEvent::Timeout), (Armed, LaunchRenderer));
    assert_eq!(step_watcher(Armed, WatchEvent::Disconnected), (Armed, Exit));
}

#[test]
fn rendering_transitions() {
    assert_eq!(step_watcher(Rendering(77), sig(ChildExited)), (Disarmed, ReturnTerminal(77)));
    assert_eq!(step_watcher(Rendering(77), sig(Terminate)), (Rendering(77), ReturnTerminalAndExit(77)));
    assert_eq!(step_watcher(Rendering(77), sig(Arm)), (Rendering(77), Wait));
    assert_eq!(step_watcher(Rendering(77), sig(Disarm)), (Rendering(77), Wait));
    assert_eq!(step_watcher(Rendering(77), WatchEvent::Disconnected), (Rendering(77), Exit));
}

#[test]
fn launch_outcome() {
    assert_eq!(after_launch(Some(4242)), Rendering(4242));
    assert_eq!(after_launch(None), Disarmed);
}

#[test]
fn full_idle_cycle() {
    let (s, a) = step_watcher(Disarmed, sig(Arm));
    assert_eq!(a, Wait);
    let (s, a) = step_watcher(s, WatchEvent::Timeout);
    assert_eq!(a, LaunchRenderer);
    let s = after_launch(Some(900));
    let (s, a) = step_watcher(s, sig(ChildExited));
    assert_eq!((s, a), (Disarmed, ReturnTerminal(900)));
}

#[test]
fn timeout_launches_only_when_armed() {
    assert_eq!(step_watcher(Disarmed, WatchEvent::Timeout), (Disarmed, Wait));
    assert_eq!(step_watcher(Rendering(5), WatchEvent::Timeout), (Rendering(5), Wait));
}

#[test]
fn terminate_always_stops() {
    for s in [Disarmed, Armed, Rendering(12)] {
        let (_, a) = step_watcher(s, sig(Terminate));
        assert!(a == Exit || a == ReturnTerminalAndExit(12));
    }
}

#[test]
fn disarmed_watcher_stays_quiet_without_arming() {
    let events = [
        sig(Disarm),
        WatchEvent::Timeout,
        sig(ChildExited),
        sig(Other),
        WatchEvent::Timeout,
        sig(Disarm),
    ];
    let mut s = Disarmed;
    for e in events {
        let (next, a) = step_watcher(s, e);
        assert_ne!(a, LaunchRenderer);
        s = next;
    }
    assert_eq!(s, Disarmed);
}
