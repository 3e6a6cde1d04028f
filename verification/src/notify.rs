//! The one-shot idle watcher: sleeps for a timeout, then signals the shell.
use vstd::prelude::*;
use crate::number::{decimal_i32, decimal_u64, parse_i32, parse_u64};
use crate::watch::{arg_at, arg_texts, opt_text, is_command_line_of, join_items};

verus! {

/// The timeout and shell pid found scanning `args` from position `i`: a
/// `--timeout` followed by a number sets the timeout, a `--pid` followed by any
/// argument sets the pid, each flag skips the argument after it, and a later
/// setting overrides an earlier one.
pub open spec fn scan_notify_args(
    args: Seq<Seq<char>>,
    i: int,
    timeout: u64,
    pid: Option<Seq<char>>,
) -> (u64, Option<Seq<char>>)
    decreases args.len() + 2 - i,
{
    if i < 0 || i >= args.len() {
        (timeout, pid)
    } else if args[i] == "--timeout"@ {
        let t = match arg_at(args, i + 1) {
            Some(v) => match decimal_u64(v) {
                Some(n) => n,
                None => timeout,
            },
            None => timeout,
        };
        scan_notify_args(args, i + 2, t, pid)
    } else if args[i] == "--pid"@ {
        let p = match arg_at(args, i + 1) {
            Some(v) => Some(v),
            None => pid,
        };
        scan_notify_args(args, i + 2, timeout, p)
    } else {
        scan_notify_args(args, i + 1, timeout, pid)
    }
}

/// Reads `--timeout <seconds>` (default 300) and `--pid <shell pid>` from the
/// argument list, skipping the program name in position 0.
pub fn parse_args(args: &Vec<String>) -> (r: (u64, Option<String>))
    ensures
        (r.0, opt_text(r.1)) == scan_notify_args(arg_texts(args@), 1, 300, None),
{
    let timeout_flag = "--timeout".to_owned();
    let pid_flag = "--pid".to_owned();
    let ghost texts = arg_texts(args@);
    let mut timeout: u64 = 300;
    let mut pid: Option<String> = None;
    let mut i: usize = 1;
    if args.len() == 0 {
        return (timeout, pid);
    }
    while i < args.len()
        invariant
            1 <= i <= args.len(),
            texts == arg_texts(args@),
            timeout_flag@ == "--timeout"@,
            pid_flag@ == "--pid"@,
            scan_notify_args(texts, 1, 300, None) == scan_notify_args(
                texts,
                i as int,
                timeout,
                opt_text(pid),
            ),
        decreases args.len() - i,
    {
        assert(texts[i as int] == args@[i as int]@);
        if args[i] == timeout_flag {
            if i + 1 < args.len() {
                assert(texts[i + 1] == args@[i + 1]@);
                if let Some(n) = parse_u64(args[i + 1].as_str()) {
                    timeout = n;
                }
                i = i + 2;
            } else {
                assert(scan_notify_args(texts, i + 2, timeout, opt_text(pid)) == (
                timeout, opt_text(pid)));
                i = args.len();
            }
        } else if args[i] == pid_flag {
            if i + 1 < args.len() {
                assert(texts[i + 1] == args@[i + 1]@);
                pid = Some(args[i + 1].clone());
                i = i + 2;
            } else {
                assert(scan_notify_args(texts, i + 2, timeout, opt_text(pid)) == (
                timeout, opt_text(pid)));
                i = args.len();
            }
        } else {
            i = i + 1;
        }
    }
    (timeout, pid)
}

/// The process to signal once the timeout has passed: the shell pid, when one
/// was given and it is a number.
pub fn signal_target(shell_pid: &Option<String>) -> (target: Option<i32>)
    ensures
        target == match opt_text(*shell_pid) {
            Some(t) => decimal_i32(t),
            None => None,
        },
{
    match shell_pid {
        Some(p) => parse_i32(p.as_str()),
        None => None,
    }
}


/// The argument after the last `--timeout` that is followed by a number, read
/// as that number; `default` when there is none.
pub open spec fn last_numeric_timeout(items: Seq<Seq<Seq<char>>>, default: u64) -> u64
    decreases items.len(),
{
    if items.len() == 0 {
        default
    } else if items.last()[0] == "--timeout"@ && items.last().len() >= 2 && decimal_u64(items.last()[1]) is Some {
        decimal_u64(items.last()[1])->0
    } else {
        last_numeric_timeout(items.drop_last(), default)
    }
}

/// The argument after the last `--pid` that is followed by one; `None` when there is none.
pub open spec fn last_pid(items: Seq<Seq<Seq<char>>>) -> Option<Seq<char>>
    decreases items.len(),
{
    if items.len() == 0 {
        None
    } else if items.last()[0] == "--pid"@ && items.last().len() >= 2 {
        Some(items.last()[1])
    } else {
        last_pid(items.drop_last())
    }
}

spec fn notify_item_step(item: Seq<Seq<char>>, acc: (u64, Option<Seq<char>>)) -> (u64, Option<Seq<char>>) {
    if item[0] == "--timeout"@ && item.len() >= 2 && decimal_u64(item[1]) is Some {
        (decimal_u64(item[1])->0, acc.1)
    } else if item[0] == "--pid"@ && item.len() >= 2 {
        (acc.0, Some(item[1]))
    } else {
        acc
    }
}

spec fn notify_items_fold(items: Seq<Seq<Seq<char>>>, acc: (u64, Option<Seq<char>>)) -> (u64, Option<Seq<char>>)
    decreases items.len(),
{
    if items.len() == 0 {
        acc
    } else {
        notify_items_fold(items.drop_first(), notify_item_step(items[0], acc))
    }
}

proof fn lemma_notify_scan_items(
    args: Seq<Seq<char>>,
    pre: Seq<Seq<char>>,
    items: Seq<Seq<Seq<char>>>,
    acc: (u64, Option<Seq<char>>),
)
    requires
        args == pre + join_items(items),
        is_command_line_of(items, "--timeout"@, "--pid"@),
        "--timeout"@ != "--pid"@,
    ensures
        scan_notify_args(args, pre.len() as int, acc.0, acc.1) == notify_items_fold(items, acc),
    decreases items.len(),
{
    let i = pre.len() as int;
    if items.len() == 0 {
        assert(args.len() == i);
        assert((acc.0, acc.1) == acc);
    } else {
        let it = items[0];
        let rest = items.drop_first();
        assert(is_command_line_of(rest, "--timeout"@, "--pid"@)) by {
            assert forall|j: int| 0 <= j < rest.len() implies {
                ||| (#[trigger] rest[j]).len() == 2 && (rest[j][0] == "--timeout"@ || rest[j][0] == "--pid"@)
                ||| rest[j].len() == 1 && rest[j][0] != "--timeout"@ && rest[j][0] != "--pid"@
                ||| rest[j].len() == 1 && j == rest.len() - 1
            } by {
                assert(rest[j] == items[j + 1]);
            }
        }
        let pre2 = pre + it;
        assert(args =~= pre2 + join_items(rest));
        assert(args[i] == it[0]);
        if it.len() == 2 {
            assert(args[i + 1] == it[1]);
            lemma_notify_scan_items(args, pre2, rest, notify_item_step(it, acc));
        } else if it[0] == "--timeout"@ || it[0] == "--pid"@ {
            assert(rest.len() == 0);
            assert(args.len() == i + 1);
            assert(notify_items_fold(rest, notify_item_step(it, acc)) == notify_item_step(it, acc));
            assert(arg_at(args, i + 1) is None);
            let next = notify_item_step(it, acc);
            assert(next == acc);
            assert(scan_notify_args(args, i + 2, acc.0, acc.1) == (acc.0, acc.1));
            assert(scan_notify_args(args, i, acc.0, acc.1) == scan_notify_args(args, i + 2, acc.0, acc.1));
        } else {
            lemma_notify_scan_items(args, pre2, rest, acc);
        }
    }
}

proof fn lemma_notify_fold_last(items: Seq<Seq<Seq<char>>>, acc: (u64, Option<Seq<char>>))
    requires
        items.len() > 0,
    ensures
        notify_items_fold(items, acc) == notify_item_step(items.last(), notify_items_fold(items.drop_last(), acc)),
    decreases items.len(),
{
    let rest = items.drop_first();
    if items.len() > 1 {
        lemma_notify_fold_last(rest, notify_item_step(items[0], acc));
        assert(rest.drop_last() =~= items.drop_last().drop_first());
        assert(rest.last() == items.last());
        assert(items.drop_last()[0] == items[0]);
        assert(notify_items_fold(items.drop_last(), acc) == notify_items_fold(
            items.drop_last().drop_first(),
            notify_item_step(items[0], acc),
        ));
    } else {
        assert(items.drop_last() =~= Seq::<Seq<Seq<char>>>::empty());
        assert(rest =~= Seq::<Seq<Seq<char>>>::empty());
        assert(items.last() == items[0]);
        assert(notify_items_fold(items.drop_last(), acc) == acc);
        assert(notify_items_fold(rest, notify_item_step(items[0], acc)) == notify_item_step(items[0], acc));
    }
}

proof fn lemma_notify_fold_is_last(items: Seq<Seq<Seq<char>>>)
    requires
        "--timeout"@ != "--pid"@,
    ensures
        notify_items_fold(items, (300, None)) == (last_numeric_timeout(items, 300), last_pid(items)),
    decreases items.len(),
{
    if items.len() > 0 {
        lemma_notify_fold_is_last(items.drop_last());
        lemma_notify_fold_last(items, (300, None));
    }
}

/// Whatever order its flags come in, the one-shot watcher's command line gives
/// as the timeout the number after the last `--timeout` that is followed by a
/// number (300 when none is), and as the shell pid the argument after the last
/// `--pid` that is followed by one; each flag reads only its own items, every
/// other argument is passed over, and the program name is never an option.
pub proof fn lemma_notify_args_last_flag_wins(prog: Seq<char>, items: Seq<Seq<Seq<char>>>)
    requires
        is_command_line_of(items, "--timeout"@, "--pid"@),
    ensures
        scan_notify_args(seq![prog] + join_items(items), 1, 300, None) == (
            last_numeric_timeout(items, 300),
            last_pid(items),
        ),
{
    reveal_strlit("--timeout");
    reveal_strlit("--pid");
    assert("--timeout"@.len() != "--pid"@.len());
    lemma_notify_scan_items(seq![prog] + join_items(items), seq![prog], items, (300, None));
    lemma_notify_fold_is_last(items);
}

} // verus!
