//! The persistent idle watcher: its command line, its lock file and the state
//! machine that arms on an idle prompt, launches the screensaver after the
//! timeout, and hands the terminal back to the shell when the screensaver exits.
use vstd::prelude::*;
use crate::number::{decimal_i32, decimal_u64, is_trimmed_of, parse_i32, parse_u64, trim};

verus! {

// ---------------------------------------------------------------------------
// Command line
// ---------------------------------------------------------------------------

/// The text of each argument.
pub open spec fn arg_texts(args: Seq<String>) -> Seq<Seq<char>> {
    args.map_values(|a: String| a@)
}

/// The argument at position `i`, if there is one.
pub open spec fn arg_at(args: Seq<Seq<char>>, i: int) -> Option<Seq<char>> {
    if 0 <= i < args.len() {
        Some(args[i])
    } else {
        None
    }
}

/// The `--tty` and `--timeout` values found scanning `args` from position `i`,
/// starting from `tty` and `timeout`: each flag takes the next argument as its
/// value (none when it is last), and a later flag overrides an earlier one.
pub open spec fn scan_watch_args(
    args: Seq<Seq<char>>,
    i: int,
    tty: Option<Seq<char>>,
    timeout: Option<Seq<char>>,
) -> (Option<Seq<char>>, Option<Seq<char>>)
    decreases args.len() + 2 - i,
{
    if i < 0 || i >= args.len() {
        (tty, timeout)
    } else if args[i] == "--tty"@ {
        scan_watch_args(args, i + 2, arg_at(args, i + 1), timeout)
    } else if args[i] == "--timeout"@ {
        scan_watch_args(args, i + 2, tty, arg_at(args, i + 1))
    } else {
        scan_watch_args(args, i + 1, tty, timeout)
    }
}

/// The text of an optional argument.
pub open spec fn opt_text(a: Option<String>) -> Option<Seq<char>> {
    match a {
        Some(s) => Some(s@),
        None => None,
    }
}

/// Reads `--tty <path>` and `--timeout <seconds>` from the whole argument list
/// (program name included); returns the terminal path and the timeout text.
pub fn parse_watch_args(args: &Vec<String>) -> (r: (Option<String>, Option<String>))
    ensures
        (opt_text(r.0), opt_text(r.1)) == scan_watch_args(arg_texts(args@), 0, None, None),
{
    let tty_flag = "--tty".to_owned();
    let timeout_flag = "--timeout".to_owned();
    let ghost texts = arg_texts(args@);
    let mut tty: Option<String> = None;
    let mut timeout: Option<String> = None;
    let mut i: usize = 0;
    while i < args.len()
        invariant
            i <= args.len(),
            texts == arg_texts(args@),
            tty_flag@ == "--tty"@,
            timeout_flag@ == "--timeout"@,
            scan_watch_args(texts, 0, None, None) == scan_watch_args(
                texts,
                i as int,
                opt_text(tty),
                opt_text(timeout),
            ),
        decreases args.len() - i,
    {
        assert(texts[i as int] == args@[i as int]@);
        if args[i] == tty_flag {
            if i + 1 < args.len() {
                assert(texts[i + 1] == args@[i + 1]@);
                tty = Some(args[i + 1].clone());
                i = i + 2;
            } else {
                assert(scan_watch_args(texts, i + 2, None, opt_text(timeout)) == (
                None::<Seq<char>>, opt_text(timeout)));
                tty = None;
                i = args.len();
            }
        } else if args[i] == timeout_flag {
            if i + 1 < args.len() {
                assert(texts[i + 1] == args@[i + 1]@);
                timeout = Some(args[i + 1].clone());
                i = i + 2;
            } else {
                assert(scan_watch_args(texts, i + 2, opt_text(tty), None) == (
                opt_text(tty), None::<Seq<char>>));
                timeout = None;
                i = args.len();
            }
        } else {
            i = i + 1;
        }
    }
    (tty, timeout)
}

/// The arguments of a command line split into items, concatenated again.
pub open spec fn join_items(items: Seq<Seq<Seq<char>>>) -> Seq<Seq<char>>
    decreases items.len(),
{
    if items.len() == 0 {
        seq![]
    } else {
        items[0] + join_items(items.drop_first())
    }
}

/// `items` splits a command line whose flags are `f1` and `f2`: every item is a
/// flag with the argument after it, or a lone argument that is not a flag, or,
/// as the very last item, a flag with nothing after it.
pub open spec fn is_command_line_of(items: Seq<Seq<Seq<char>>>, f1: Seq<char>, f2: Seq<char>) -> bool {
    forall|j: int|
        0 <= j < items.len() ==> {
            ||| (#[trigger] items[j]).len() == 2 && (items[j][0] == f1 || items[j][0] == f2)
            ||| items[j].len() == 1 && items[j][0] != f1 && items[j][0] != f2
            ||| items[j].len() == 1 && j == items.len() - 1
        }
}

/// What the last item with flag `flag` says: the argument after it, or nothing
/// when that flag ends the command line; `None` when no item has the flag.
pub open spec fn last_value_of(items: Seq<Seq<Seq<char>>>, flag: Seq<char>) -> Option<Seq<char>>
    decreases items.len(),
{
    if items.len() == 0 {
        None
    } else if items.last()[0] == flag {
        if items.last().len() >= 2 {
            Some(items.last()[1])
        } else {
            None
        }
    } else {
        last_value_of(items.drop_last(), flag)
    }
}

spec fn watch_item_step(item: Seq<Seq<char>>, acc: (Option<Seq<char>>, Option<Seq<char>>)) -> (
    Option<Seq<char>>,
    Option<Seq<char>>,
) {
    let value = if item.len() >= 2 {
        Some(item[1])
    } else {
        None
    };
    if item[0] == "--tty"@ {
        (value, acc.1)
    } else if item[0] == "--timeout"@ {
        (acc.0, value)
    } else {
        acc
    }
}

spec fn watch_items_fold(items: Seq<Seq<Seq<char>>>, acc: (Option<Seq<char>>, Option<Seq<char>>)) -> (
    Option<Seq<char>>,
    Option<Seq<char>>,
)
    decreases items.len(),
{
    if items.len() == 0 {
        acc
    } else {
        watch_items_fold(items.drop_first(), watch_item_step(items[0], acc))
    }
}

proof fn lemma_watch_scan_items(
    args: Seq<Seq<char>>,
    pre: Seq<Seq<char>>,
    items: Seq<Seq<Seq<char>>>,
    acc: (Option<Seq<char>>, Option<Seq<char>>),
)
    requires
        args == pre + join_items(items),
        is_command_line_of(items, "--tty"@, "--timeout"@),
        "--tty"@ != "--timeout"@,
    ensures
        scan_watch_args(args, pre.len() as int, acc.0, acc.1) == watch_items_fold(items, acc),
    decreases items.len(),
{
    let i = pre.len() as int;
    if items.len() == 0 {
        assert(args.len() == i);
        assert((acc.0, acc.1) == acc);
    } else {
        let it = items[0];
        let rest = items.drop_first();
        assert(is_command_line_of(rest, "--tty"@, "--timeout"@)) by {
            assert forall|j: int| 0 <= j < rest.len() implies {
                ||| (#[trigger] rest[j]).len() == 2 && (rest[j][0] == "--tty"@ || rest[j][0] == "--timeout"@)
                ||| rest[j].len() == 1 && rest[j][0] != "--tty"@ && rest[j][0] != "--timeout"@
                ||| rest[j].len() == 1 && j == rest.len() - 1
            } by {
                assert(rest[j] == items[j + 1]);
            }
        }
        let pre2 = pre + it;
        assert(args =~= pre2 + join_items(rest));
        assert(args[i] == it[0]);
        if it.len() == 2 {
            assert(args[i + 1] == it[1]);
            assert(arg_at(args, i + 1) == Some(it[1]));
            assert(pre2.len() == i + 2);
            assert(scan_watch_args(args, i, acc.0, acc.1) == scan_watch_args(
                args,
                i + 2,
                watch_item_step(it, acc).0,
                watch_item_step(it, acc).1,
            ));
            lemma_watch_scan_items(args, pre2, rest, watch_item_step(it, acc));
        } else if it[0] == "--tty"@ || it[0] == "--timeout"@ {
            assert(rest.len() == 0);
            assert(args.len() == i + 1);
            assert(watch_items_fold(rest, watch_item_step(it, acc)) == watch_item_step(it, acc));
            assert(arg_at(args, i + 1) is None);
            let next = watch_item_step(it, acc);
            assert(scan_watch_args(args, i + 2, next.0, next.1) == (next.0, next.1));
            assert(scan_watch_args(args, i, acc.0, acc.1) == scan_watch_args(args, i + 2, next.0, next.1));
        } else {
            lemma_watch_scan_items(args, pre2, rest, acc);
        }
    }
}

proof fn lemma_watch_fold_last(items: Seq<Seq<Seq<char>>>, acc: (Option<Seq<char>>, Option<Seq<char>>))
    requires
        items.len() > 0,
    ensures
        watch_items_fold(items, acc) == watch_item_step(items.last(), watch_items_fold(items.drop_last(), acc)),
    decreases items.len(),
{
    let rest = items.drop_first();
    if items.len() > 1 {
        lemma_watch_fold_last(rest, watch_item_step(items[0], acc));
        assert(rest.drop_last() =~= items.drop_last().drop_first());
        assert(rest.last() == items.last());
        assert(items.drop_last()[0] == items[0]);
        assert(watch_items_fold(items.drop_last(), acc) == watch_items_fold(
            items.drop_last().drop_first(),
            watch_item_step(items[0], acc),
        ));
    } else {
        assert(items.drop_last() =~= Seq::<Seq<Seq<char>>>::empty());
        assert(rest =~= Seq::<Seq<Seq<char>>>::empty());
        assert(items.last() == items[0]);
        assert(watch_items_fold(items.drop_last(), acc) == acc);
        assert(watch_items_fold(rest, watch_item_step(items[0], acc)) == watch_item_step(items[0], acc));
    }
}

proof fn lemma_watch_fold_is_last(items: Seq<Seq<Seq<char>>>)
    requires
        "--tty"@ != "--timeout"@,
    ensures
        watch_items_fold(items, (None, None)) == (last_value_of(items, "--tty"@), last_value_of(items, "--timeout"@)),
    decreases items.len(),
{
    if items.len() > 0 {
        lemma_watch_fold_is_last(items.drop_last());
        lemma_watch_fold_last(items, (None, None));
    }
}

/// Whatever order its flags come in, the watcher's command line gives as the
/// terminal what the last `--tty` says and as the timeout text what the last
/// `--timeout` says (nothing when that flag ends the line); each flag reads only
/// its own items, and every other argument is passed over.
pub proof fn lemma_watch_args_last_flag_wins(items: Seq<Seq<Seq<char>>>)
    requires
        is_command_line_of(items, "--tty"@, "--timeout"@),
    ensures
        scan_watch_args(join_items(items), 0, None, None) == (
            last_value_of(items, "--tty"@),
            last_value_of(items, "--timeout"@),
        ),
{
    reveal_strlit("--tty");
    reveal_strlit("--timeout");
    assert("--tty"@.len() != "--timeout"@.len());
    let empty = Seq::<Seq<char>>::empty();
    assert(join_items(items) =~= empty + join_items(items));
    lemma_watch_scan_items(join_items(items), empty, items, (None, None));
    lemma_watch_fold_is_last(items);
}

/// Seconds of idleness before the screensaver starts: the `--timeout` value if it
/// is a number, else the value of the `TIDE_TIMEOUT` environment variable if it
/// is one, else 5.
pub open spec fn timeout_secs(cli: Option<Seq<char>>, env: Option<Seq<char>>) -> u64 {
    let from_cli = match cli {
        Some(s) => decimal_u64(s),
        None => None,
    };
    match from_cli {
        Some(n) => n,
        None => match env {
            Some(e) => match decimal_u64(e) {
                Some(n) => n,
                None => 5,
            },
            None => 5,
        },
    }
}

/// The idle timeout in seconds, from the `--timeout` text and the value of the
/// `TIDE_TIMEOUT` environment variable.
pub fn resolve_timeout(cli: &Option<String>, env: &Option<String>) -> (secs: u64)
    ensures
        secs == timeout_secs(opt_text(*cli), opt_text(*env)),
{
    let from_cli = match cli {
        Some(s) => parse_u64(s.as_str()),
        None => None,
    };
    match from_cli {
        Some(n) => n,
        None => match env {
            Some(e) => match parse_u64(e.as_str()) {
                Some(n) => n,
                None => 5,
            },
            None => 5,
        },
    }
}

/// A `--timeout` value that is a number is the timeout, whatever the environment says.
pub proof fn lemma_command_line_timeout_wins(cli: Seq<char>, env: Option<Seq<char>>)
    requires
        decimal_u64(cli) is Some,
    ensures
        timeout_secs(Some(cli), env) == decimal_u64(cli)->0,
{
}

/// Without a numeric `--timeout`, a numeric `TIDE_TIMEOUT` is the timeout, and
/// otherwise it is 5 seconds.
pub proof fn lemma_environment_timeout_fallback(cli: Option<Seq<char>>, env: Option<Seq<char>>)
    requires
        cli matches Some(c) ==> decimal_u64(c) is None,
    ensures
        env matches Some(e) && decimal_u64(e) is Some ==> timeout_secs(cli, env) == decimal_u64(env->0)->0,
        !(env matches Some(e) && decimal_u64(e) is Some) ==> timeout_secs(cli, env) == 5,
{
}

// ---------------------------------------------------------------------------
// Lock file
// ---------------------------------------------------------------------------

/// `s` with every `'/'` replaced by `'_'`.
pub open spec fn slashes_to_underscores(s: Seq<char>) -> Seq<char> {
    s.map_values(|c: char| if c == '/' { '_' } else { c })
}

/// The lock file that makes the watcher a singleton per terminal.
pub open spec fn lock_file_path(tty: Seq<char>) -> Seq<char> {
    "/tmp/tide-"@ + slashes_to_underscores(tty) + ".pid"@
}

/// Path of the lock file for the terminal at `tty`, e.g. `/dev/pts/3` gives
/// `/tmp/tide-_dev_pts_3.pid`.
pub fn lock_path(tty: &str) -> (path: String)
    ensures
        path@ == lock_file_path(tty@),
{
    let mut path = "/tmp/tide-".to_owned();
    let n = tty.unicode_len();
    let ghost prefix = path@;
    let mut i: usize = 0;
    while i < n
        invariant
            i <= n,
            n == tty@.len(),
            path@ == prefix + slashes_to_underscores(tty@.subrange(0, i as int)),
        decreases n - i,
    {
        let c = tty.get_char(i);
        if c == '/' {
            proof {
                reveal_strlit("_");
            }
            path.append("_");
        } else {
            path.append(tty.substring_char(i, i + 1));
        }
        assert(tty@.subrange(0, i + 1) =~= tty@.subrange(0, i as int).push(c));
        assert(slashes_to_underscores(tty@.subrange(0, i + 1)) =~= slashes_to_underscores(
            tty@.subrange(0, i as int),
        ).push(if c == '/' { '_' } else { c }));
        i += 1;
    }
    assert(tty@.subrange(0, n as int) =~= tty@);
    path.append(".pid");
    path
}

/// The lock path is `"/tmp/tide-"`, then the terminal path character for
/// character with each `'/'` turned into `'_'`, then `".pid"`.
pub proof fn lemma_lock_path_shape(tty: Seq<char>)
    ensures
        lock_file_path(tty).len() == tty.len() + 14,
        lock_file_path(tty).subrange(0, 10) == "/tmp/tide-"@,
        lock_file_path(tty).subrange(10 + tty.len() as int, 14 + tty.len() as int) == ".pid"@,
        forall|i: int|
            0 <= i < tty.len() ==> #[trigger] lock_file_path(tty)[10 + i] == if tty[i] == '/' {
                '_'
            } else {
                tty[i]
            },
{
    reveal_strlit("/tmp/tide-");
    reveal_strlit(".pid");
    let p = lock_file_path(tty);
    assert(p.subrange(0, 10) =~= "/tmp/tide-"@);
    assert(p.subrange(10 + tty.len() as int, 14 + tty.len() as int) =~= ".pid"@);
}

/// Terminal paths without `'_'` get distinct lock files: two such terminals share
/// a lock only when they are the same terminal.
pub proof fn lemma_lock_paths_distinct(t1: Seq<char>, t2: Seq<char>)
    requires
        !t1.contains('_'),
        !t2.contains('_'),
        lock_file_path(t1) == lock_file_path(t2),
    ensures
        t1 == t2,
{
    lemma_lock_path_shape(t1);
    lemma_lock_path_shape(t2);
    assert(t1.len() == t2.len());
    assert forall|i: int| 0 <= i < t1.len() implies t1[i] == t2[i] by {
        assert(lock_file_path(t1)[10 + i] == lock_file_path(t2)[10 + i]);
        let c1 = t1[i];
        let c2 = t2[i];
        assert(lock_file_path(t1)[10 + i] == if c1 == '/' { '_' } else { c1 });
        assert(lock_file_path(t2)[10 + i] == if c2 == '/' { '_' } else { c2 });
        assert(c1 != '_') by {
            if c1 == '_' {
                assert(t1.contains('_'));
            }
        }
        assert(c2 != '_') by {
            if c2 == '_' {
                assert(t2.contains('_'));
            }
        }
    }
    assert(t1 =~= t2);
}

/// The process id recorded in a lock file's content: a decimal `i32` surrounded
/// by optional white space.
pub fn parse_lock_pid(content: &str) -> (pid: Option<i32>)
    ensures
        exists|t: Seq<char>| is_trimmed_of(t, content@) && pid == decimal_i32(t),
{
    let t = trim(content);
    parse_i32(t)
}


// ---------------------------------------------------------------------------
// State machine
// ---------------------------------------------------------------------------

/// The signals the watcher listens for.
#[derive(Clone, Copy, Debug, PartialEq, Eq, Structural)]
pub enum WatchSignal {
    /// `SIGUSR1`: the prompt is shown and idle.
    Arm,
    /// `SIGUSR2`: a command is starting.
    Disarm,
    /// `SIGCHLD`: a child process ended.
    ChildExited,
    /// `SIGTERM`: the watcher must stop.
    Terminate,
    /// Any other signal.
    Other,
}

/// What the watcher's wait ended with.
#[derive(Clone, Copy, Debug, PartialEq, Eq, Structural)]
pub enum WatchEvent {
    Signal(WatchSignal),
    /// The idle timeout ran out while armed.
    Timeout,
    /// No more signals can arrive.
    Disconnected,
}

/// The watcher's state.
#[derive(Clone, Copy, Debug, PartialEq, Eq, Structural)]
pub enum WatchState {
    /// Waiting for the prompt to become idle.
    Disarmed,
    /// The prompt is idle; the timeout runs.
    Armed,
    /// The screensaver runs in the foreground; the shell's process group is kept
    /// to give the terminal back to it.
    Rendering(i32),
}

/// What the watcher does after a transition.
#[derive(Clone, Copy, Debug, PartialEq, Eq, Structural)]
pub enum WatchAction {
    /// Wait for the next event (while armed, with a fresh timeout).
    Wait,
    /// Collect the exit status of ended children.
    ReapChildren,
    /// Start the screensaver on the terminal and make it the foreground process group.
    LaunchRenderer,
    /// Give the terminal's foreground back to the process group, then collect ended children.
    ReturnTerminal(i32),
    /// Stop the watcher.
    Exit,
    /// Give the terminal's foreground back to the process group, collect ended
    /// children, then stop the watcher.
    ReturnTerminalAndExit(i32),
}

/// The watcher's transition table.
pub open spec fn watcher_transition(state: WatchState, event: WatchEvent) -> (WatchState, WatchAction) {
    match state {
        WatchState::Disarmed => match event {
            WatchEvent::Signal(WatchSignal::Arm) => (WatchState::Armed, WatchAction::Wait),
            WatchEvent::Signal(WatchSignal::ChildExited) => (state, WatchAction::ReapChildren),
            WatchEvent::Signal(WatchSignal::Terminate) => (state, WatchAction::Exit),
            WatchEvent::Signal(_) => (state, WatchAction::Wait),
            WatchEvent::Timeout => (state, WatchAction::Wait),
            WatchEvent::Disconnected => (state, WatchAction::Exit),
        },
        WatchState::Armed => match event {
            WatchEvent::Signal(WatchSignal::Disarm) => (WatchState::Disarmed, WatchAction::Wait),
            WatchEvent::Signal(WatchSignal::ChildExited) => (state, WatchAction::ReapChildren),
            WatchEvent::Signal(WatchSignal::Terminate) => (state, WatchAction::Exit),
            WatchEvent::Signal(_) => (state, WatchAction::Wait),
            WatchEvent::Timeout => (state, WatchAction::LaunchRenderer),
            WatchEvent::Disconnected => (state, WatchAction::Exit),
        },
        WatchState::Rendering(shell_pgrp) => match event {
            WatchEvent::Signal(WatchSignal::ChildExited) => (
                WatchState::Disarmed,
                WatchAction::ReturnTerminal(shell_pgrp),
            ),
            WatchEvent::Signal(WatchSignal::Terminate) => (
                state,
                WatchAction::ReturnTerminalAndExit(shell_pgrp),
            ),
            WatchEvent::Signal(_) => (state, WatchAction::Wait),
            WatchEvent::Timeout => (state, WatchAction::Wait),
            WatchEvent::Disconnected => (state, WatchAction::Exit),
        },
    }
}

/// The watcher's next state and action on `event`. A `Timeout` only arises while
/// armed; elsewhere it changes nothing.
pub fn step_watcher(state: WatchState, event: WatchEvent) -> (r: (WatchState, WatchAction))
    ensures
        r == watcher_transition(state, event),
{
    match state {
        WatchState::Disarmed => match event {
            WatchEvent::Signal(WatchSignal::Arm) => (WatchState::Armed, WatchAction::Wait),
            WatchEvent::Signal(WatchSignal::ChildExited) => (state, WatchAction::ReapChildren),
            WatchEvent::Signal(WatchSignal::Terminate) => (state, WatchAction::Exit),
            WatchEvent::Signal(_) => (state, WatchAction::Wait),
            WatchEvent::Timeout => (state, WatchAction::Wait),
            WatchEvent::Disconnected => (state, WatchAction::Exit),
        },
        WatchState::Armed => match event {
            WatchEvent::Signal(WatchSignal::Disarm) => (WatchState::Disarmed, WatchAction::Wait),
            WatchEvent::Signal(WatchSignal::ChildExited) => (state, WatchAction::ReapChildren),
            WatchEvent::Signal(WatchSignal::Terminate) => (state, WatchAction::Exit),
            WatchEvent::Signal(_) => (state, WatchAction::Wait),
            WatchEvent::Timeout => (state, WatchAction::LaunchRenderer),
            WatchEvent::Disconnected => (state, WatchAction::Exit),
        },
        WatchState::Rendering(shell_pgrp) => match event {
            WatchEvent::Signal(WatchSignal::ChildExited) => (
                WatchState::Disarmed,
                WatchAction::ReturnTerminal(shell_pgrp),
            ),
            WatchEvent::Signal(WatchSignal::Terminate) => (
                state,
                WatchAction::ReturnTerminalAndExit(shell_pgrp),
            ),
            WatchEvent::Signal(_) => (state, WatchAction::Wait),
            WatchEvent::Timeout => (state, WatchAction::Wait),
            WatchEvent::Disconnected => (state, WatchAction::Exit),
        },
    }
}

/// The state after trying to launch the screensaver: rendering, keeping the
/// shell's process group, when it started; disarmed when it could not.
pub fn after_launch(shell_pgrp: Option<i32>) -> (s: WatchState)
    ensures
        s == match shell_pgrp {
            Some(p) => WatchState::Rendering(p),
            None => WatchState::Disarmed,
        },
{
    match shell_pgrp {
        Some(p) => WatchState::Rendering(p),
        None => WatchState::Disarmed,
    }
}

/// Whether an action stops the watcher.
pub open spec fn is_exit(a: WatchAction) -> bool {
    a is Exit || a is ReturnTerminalAndExit
}

/// `SIGTERM` stops the watcher in every state, and while the screensaver runs
/// the terminal is first given back to the shell.
pub proof fn lemma_terminate_stops(state: WatchState)
    ensures
        is_exit(watcher_transition(state, WatchEvent::Signal(WatchSignal::Terminate)).1),
        state matches WatchState::Rendering(p) ==> watcher_transition(
            state,
            WatchEvent::Signal(WatchSignal::Terminate),
        ).1 == WatchAction::ReturnTerminalAndExit(p),
{
}

/// When no more signals can arrive, the watcher stops, whatever its state.
pub proof fn lemma_disconnect_stops(state: WatchState)
    ensures
        watcher_transition(state, WatchEvent::Disconnected).1 == WatchAction::Exit,
{
}

/// The screensaver is launched exactly when the timeout runs out while armed;
/// in particular never while one is already running.
pub proof fn lemma_launch_only_when_armed_and_idle(state: WatchState, event: WatchEvent)
    ensures
        watcher_transition(state, event).1 == WatchAction::LaunchRenderer <==> (state
            == WatchState::Armed && event == WatchEvent::Timeout),
{
}

/// A transition never starts rendering: only a successful launch does.
pub proof fn lemma_rendering_only_after_launch(state: WatchState, event: WatchEvent)
    ensures
        watcher_transition(state, event).0 is Rendering ==> watcher_transition(state, event).0
            == state,
{
}

/// The terminal is only ever given back while rendering, and always to the
/// shell's process group saved when the screensaver was launched; when the
/// screensaver exits, the watcher returns the terminal and disarms.
pub proof fn lemma_terminal_returned_to_shell(state: WatchState, event: WatchEvent)
    ensures
        watcher_transition(state, event).1 matches WatchAction::ReturnTerminal(q) ==> state
            == WatchState::Rendering(q),
        watcher_transition(state, event).1 matches WatchAction::ReturnTerminalAndExit(q) ==> state
            == WatchState::Rendering(q),
        state matches WatchState::Rendering(p) ==> watcher_transition(
            state,
            WatchEvent::Signal(WatchSignal::ChildExited),
        ) == (WatchState::Disarmed, WatchAction::ReturnTerminal(p)),
{
}

/// Only an idle prompt arms the watcher, and only a starting command disarms it.
pub proof fn lemma_arming(state: WatchState, event: WatchEvent)
    ensures
        state == WatchState::Disarmed ==> (watcher_transition(state, event).0 == WatchState::Armed
            <==> event == WatchEvent::Signal(WatchSignal::Arm)),
        state == WatchState::Armed ==> (watcher_transition(state, event).0 == WatchState::Disarmed
            <==> event == WatchEvent::Signal(WatchSignal::Disarm)),
{
}


/// Whether the watcher, starting in `state`, launches the screensaver at some
/// point while it takes `events` in order.
pub open spec fn launches_during(state: WatchState, events: Seq<WatchEvent>) -> bool
    decreases events.len(),
{
    if events.len() == 0 {
        false
    } else {
        let (next, action) = watcher_transition(state, events[0]);
        action == WatchAction::LaunchRenderer || launches_during(next, events.drop_first())
    }
}

/// Once a command has started (the watcher is disarmed), the screensaver does not
/// start again until the prompt reports itself idle: no sequence of events without
/// an arming signal launches it.
pub proof fn lemma_disarmed_stays_quiet(events: Seq<WatchEvent>)
    requires
        forall|i: int| 0 <= i < events.len() ==> events[i] != WatchEvent::Signal(WatchSignal::Arm),
    ensures
        !launches_during(WatchState::Disarmed, events),
    decreases events.len(),
{
    if events.len() > 0 {
        let rest = events.drop_first();
        assert forall|i: int| 0 <= i < rest.len() implies rest[i] != WatchEvent::Signal(
            WatchSignal::Arm,
        ) by {
            assert(rest[i] == events[i + 1]);
        }
        assert(events[0] != WatchEvent::Signal(WatchSignal::Arm));
        lemma_disarmed_stays_quiet(rest);
    }
}


/// Every ended child is collected: on `SIGCHLD` the watcher reaps children, and
/// while the screensaver runs it also gives the terminal back first.
pub proof fn lemma_children_reaped(state: WatchState)
    ensures
        ({
            let (next, action) = watcher_transition(state, WatchEvent::Signal(WatchSignal::ChildExited));
            ||| state !is Rendering && next == state && action == WatchAction::ReapChildren
            ||| state matches WatchState::Rendering(p) && action == WatchAction::ReturnTerminal(p)
        }),
{
}

/// Signals the watcher does not know change nothing, in every state; while the
/// screensaver runs, only its exit, `SIGTERM` or the end of signals change
/// anything.
pub proof fn lemma_ignored_events(state: WatchState, event: WatchEvent)
    ensures
        watcher_transition(state, WatchEvent::Signal(WatchSignal::Other)) == (state, WatchAction::Wait),
        state is Rendering && event != WatchEvent::Signal(WatchSignal::ChildExited) && event != WatchEvent::Signal(
            WatchSignal::Terminate,
        ) && event != WatchEvent::Disconnected ==> watcher_transition(state, event) == (state, WatchAction::Wait),
{
}

} // verus!
