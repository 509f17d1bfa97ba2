use anakin::orphans::{entry_outcome, select_orphans, EntryOutcome, ProcessRecord, StatusRead};

fn rec(pid: u32, parent: Option<u32>) -> ProcessRecord {
    ProcessRecord { pid, parent }
}

fn survivors(table: &[ProcessRecord], killed: &[u32]) -> Vec<ProcessRecord> {
    table.iter().copied().filter(|r| !killed.contains(&r.pid)).collect()
}

fn sample_table() -> Vec<ProcessRecord> {
    vec![
        rec(1, Some(0)),
        rec(100, Some(1)),
        rec(200, Some(100)),
        rec(201, Some(100)),
        rec(202, Some(100)),
        rec(300, Some(201)),
        rec(400, None),
    ]
}

#[test]
fn pass_kills_direct_children_but_the_exempt() {
    let table = sample_table();
    assert_eq!(select_orphans(&table, 100, 201), vec![200, 202]);
}

#[test]
fn no_orphan_survives_a_pass() {
    let table = sample_table();
    let killed = select_orphans(&table, 100, 201);
    let left = survivors(&table, &killed);
    assert!(left.iter().all(|r| !(r.parent == Some(100) && r.pid != 201)));
}

#[test]
fn second_pass_kills_nothing() {
    let table = sample_table();
    let killed = select_orphans(&table, 100, 0);
    let left = survivors(&table, &killed);
    assert_eq!(select_orphans(&left, 100, 0), Vec::<u32>::new());
}

#[test]
fn exempt_child_survives_while_its_orphans_die() {
    // The child 50 and two orphaned grandchildren, reparented to us (10).
    let table = vec![rec(50, Some(10)), rec(60, Some(10)), rec(61, Some(10)), rec(70, Some(50))];
    let killed = select_orphans(&table, 10, 50);
    assert_eq!(killed, vec![60, 61]);
    assert!(!killed.contains(&50));
}

#[test]
fn exempting_zero_exempts_nothing() {
    let table = vec![rec(50, Some(10)), rec(60, Some(10)), rec(70, Some(50))];
    assert_eq!(select_orphans(&table, 10, 0), vec![50, 60]);
}

#[test]
fn unreadable_parent_is_never_killed() {
    let table = vec![rec(5, None), rec(6, Some(2))];
    assert_eq!(select_orphans(&table, 2, 0), vec![6]);
}

#[test]
fn empty_table_kills_nothing() {
    assert_eq!(select_orphans(&Vec::new(), 2, 0), Vec::<u32>::new());
}

#[test]
fn vanished_process_is_skipped_silently() {
    assert_eq!(entry_outcome(77, &StatusRead::Missing), EntryOutcome::Skip);
}

#[test]
fn other_read_failure_is_reported() {
    assert_eq!(entry_outcome(77, &StatusRead::Failed), EntryOutcome::Report);
}

#[test]
fn read_status_gives_a_row() {
    let line = StatusRead::Line("77 (cat) S 12 77 12".to_string());
    assert_eq!(entry_outcome(77, &line), EntryOutcome::Record(rec(77, Some(12))));
    let garbled = StatusRead::Line("77 (cat)".to_string());
    assert_eq!(entry_outcome(77, &garbled), EntryOutcome::Record(rec(77, None)));
}
