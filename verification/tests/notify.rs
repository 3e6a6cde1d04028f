use tide::notify::{parse_args, signal_target};

fn args(list: &[&str]) -> Vec<String> {
    list.iter().map(|s| s.to_string()).collect()
}

#[test]
fn defaults_to_five_minutes_and_no_pid() {
    assert_eq!(parse_args(&args(&["tide-watch"])), (300, None));
    assert_eq!(parse_args(&args(&[])), (300, None));
}

#[test]
fn reads_timeout_and_pid() {
    assert_eq!(
        parse_args(&args(&["tide-watch", "--timeout", "10", "--pid", "4321"])),
        (10, Some("4321".to_string()))
    );
}

#[test]
fn bad_timeout_keeps_the_previous_one() {
    assert_eq!(parse_args(&args(&["w", "--timeout", "120", "--timeout", "abc"])), (120, None));
    assert_eq!(parse_args(&args(&["w", "--timeout"])), (300, None));
}

#[test]
fn program_name_is_not_an_option() {
    assert_eq!(parse_args(&args(&["--timeout", "10"])), (300, None));
}

#[test]
fn flag_values_are_skipped() {
    assert_eq!(
        parse_args(&args(&["w", "--pid", "--timeout", "5"])),
        (300, Some("--timeout".to_string()))
    );
}

#[test]
fn target_is_the_numeric_pid() {
    assert_eq!(signal_target(&Some("4321".to_string())), Some(4321));
    assert_eq!(signal_target(&Some("shell".to_string())), None);
    assert_eq!(signal_target(&None), None);
}
