use anakin::parse::{entry_pid, stat_parent_pid};

#[test]
fn parent_is_fourth_token() {
    assert_eq!(
        stat_parent_pid("4242 (sleep) S 17 4242 17 0 -1 4194304 107 0 0 0\n"),
        Some(17)
    );
}

#[test]
fn parent_with_tabs_and_repeated_spaces() {
    assert_eq!(stat_parent_pid("  9\t(sh)   R\t\t3 \n"), Some(3));
}

#[test]
fn short_status_line_gives_no_parent() {
    assert_eq!(stat_parent_pid("1 (init) S"), None);
    assert_eq!(stat_parent_pid(""), None);
}

#[test]
fn name_with_space_shifts_tokens() {
    assert_eq!(stat_parent_pid("12 (tmux: server) S 1 12"), None);
}

#[test]
fn directory_with_numeric_name_is_a_process() {
    assert_eq!(entry_pid("123", true), Some(123));
    assert_eq!(entry_pid("+5", true), Some(5));
    assert_eq!(entry_pid("4294967295", true), Some(4294967295));
}

#[test]
fn other_entries_are_not_processes() {
    assert_eq!(entry_pid("123", false), None);
    assert_eq!(entry_pid("self", true), None);
    assert_eq!(entry_pid("", true), None);
    assert_eq!(entry_pid("+", true), None);
    assert_eq!(entry_pid("-1", true), None);
    assert_eq!(entry_pid("12a", true), None);
    assert_eq!(entry_pid("4294967296", true), None);
    assert_eq!(entry_pid("99999999999999999999", true), None);
}
