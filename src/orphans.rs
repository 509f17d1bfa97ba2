use vstd::prelude::*;
use crate::parse::{stat_parent_pid, status_parent};

verus! {

/// One row of the process table: a process and, when its status could be
/// read, its parent.
#[derive(Clone, Copy, Debug, PartialEq, Eq, Structural)]
pub struct ProcessRecord {
    pub pid: u32,
    pub parent: Option<u32>,
}

/// What reading a process's status record gave.
pub enum StatusRead {
    /// The record is gone: the process exited after it was listed.
    Missing,
    /// The record could not be read for another reason.
    Failed,
    /// The first line of the record.
    Line(String),
}

/// What becomes of one listed process.
#[derive(Clone, Copy, Debug, PartialEq, Eq, Structural)]
pub enum EntryOutcome {
    /// Left out of the table without a word.
    Skip,
    /// Left out of the table, and the failure is reported.
    Report,
    /// Taken into the table.
    Record(ProcessRecord),
}

/// Decides what becomes of a listed process from what reading its status
/// gave: a vanished process is skipped silently, another failure is
/// reported, and a read line gives a row with the parent it names.
pub fn entry_outcome(pid: u32, read: &StatusRead) -> (r: EntryOutcome)
    ensures
        match read {
            StatusRead::Missing => r == EntryOutcome::Skip,
            StatusRead::Failed => r == EntryOutcome::Report,
            StatusRead::Line(l) => r == EntryOutcome::Record(
                ProcessRecord { pid, parent: status_parent(l@) },
            ),
        },
{
    match read {
        StatusRead::Missing => EntryOutcome::Skip,
        StatusRead::Failed => EntryOutcome::Report,
        StatusRead::Line(l) => EntryOutcome::Record(
            ProcessRecord { pid, parent: stat_parent_pid(l.as_str()) },
        ),
    }
}

/// A row that a pass kills: a direct child of the supervisor that is not
/// the exempt process.
pub open spec fn is_target(r: ProcessRecord, my_pid: u32, except: u32) -> bool {
    r.parent == Some(my_pid) && r.pid != except
}

/// The process ids that one pass over `table` kills, in table order.
pub open spec fn kill_targets(table: Seq<ProcessRecord>, my_pid: u32, except: u32) -> Seq<u32>
    decreases table.len(),
{
    if table.len() == 0 {
        Seq::empty()
    } else {
        let t = kill_targets(table.drop_last(), my_pid, except);
        if is_target(table.last(), my_pid, except) {
            t.push(table.last().pid)
        } else {
            t
        }
    }
}

/// The process ids of the rows whose parent is `my_pid`, in table order.
pub open spec fn children_of(table: Seq<ProcessRecord>, my_pid: u32) -> Seq<u32>
    decreases table.len(),
{
    if table.len() == 0 {
        Seq::empty()
    } else {
        let t = children_of(table.drop_last(), my_pid);
        if table.last().parent == Some(my_pid) {
            t.push(table.last().pid)
        } else {
            t
        }
    }
}

/// The rows of a table that stays as it is but for the processes in
/// `killed`, which die.
pub open spec fn survivors(table: Seq<ProcessRecord>, killed: Seq<u32>) -> Seq<ProcessRecord>
    decreases table.len(),
{
    if table.len() == 0 {
        Seq::empty()
    } else {
        let s = survivors(table.drop_last(), killed);
        if killed.contains(table.last().pid) {
            s
        } else {
            s.push(table.last())
        }
    }
}

/// Chooses the processes that one pass kills: each row whose parent is
/// `my_pid` and whose pid is not `except`, in table order.
pub fn select_orphans(table: &Vec<ProcessRecord>, my_pid: u32, except: u32) -> (r: Vec<u32>)
    ensures
        r@ == kill_targets(table@, my_pid, except),
{
    let mut r: Vec<u32> = Vec::new();
    let mut k: usize = 0;
    assert(table@.take(0) == Seq::<ProcessRecord>::empty());
    while k < table.len()
        invariant
            k <= table.len(),
            r@ == kill_targets(table@.take(k as int), my_pid, except),
        decreases table.len() - k,
    {
        let row = table[k];
        assert(table@.take(k + 1).drop_last() == table@.take(k as int));
        assert(table@.take(k + 1).last() == row);
        if row.parent == Some(my_pid) && row.pid != except {
            r.push(row.pid);
        }
        k = k + 1;
    }
    assert(table@.take(table.len() as int) == table@);
    r
}

proof fn lemma_targets_complete(table: Seq<ProcessRecord>, my_pid: u32, except: u32)
    ensures
        forall|j: int|
            0 <= j < table.len() && is_target(#[trigger] table[j], my_pid, except)
                ==> kill_targets(table, my_pid, except).contains(table[j].pid),
    decreases table.len(),
{
    if table.len() > 0 {
        let pre = table.drop_last();
        lemma_targets_complete(pre, my_pid, except);
        let t = kill_targets(pre, my_pid, except);
        assert forall|j: int|
            0 <= j < table.len() && is_target(#[trigger] table[j], my_pid, except)
                implies kill_targets(table, my_pid, except).contains(table[j].pid) by {
            if j == table.len() - 1 {
                assert(t.push(table[j].pid)[t.len() as int] == table[j].pid);
            } else {
                assert(pre[j] == table[j]);
                let w = choose|w: int| 0 <= w < t.len() && t[w] == pre[j].pid;
                if is_target(table.last(), my_pid, except) {
                    assert(t.push(table.last().pid)[w] == table[j].pid);
                }
            }
        }
    }
}

proof fn lemma_targets_spare_exempt(table: Seq<ProcessRecord>, my_pid: u32, except: u32)
    ensures
        forall|i: int|
            0 <= i < kill_targets(table, my_pid, except).len()
                ==> #[trigger] kill_targets(table, my_pid, except)[i] != except,
    decreases table.len(),
{
    if table.len() > 0 {
        let pre = table.drop_last();
        lemma_targets_spare_exempt(pre, my_pid, except);
        let t = kill_targets(pre, my_pid, except);
        if is_target(table.last(), my_pid, except) {
            assert forall|i: int| 0 <= i < t.len() + 1 implies #[trigger] t.push(
                table.last().pid,
            )[i] != except by {
                if i < t.len() {
                    assert(t.push(table.last().pid)[i] == t[i]);
                }
            }
        }
    }
}

proof fn lemma_survivors_kept(table: Seq<ProcessRecord>, killed: Seq<u32>)
    ensures
        forall|i: int|
            0 <= i < survivors(table, killed).len() ==> {
                &&& !killed.contains((#[trigger] survivors(table, killed)[i]).pid)
                &&& table.contains(survivors(table, killed)[i])
            },
    decreases table.len(),
{
    if table.len() > 0 {
        let pre = table.drop_last();
        lemma_survivors_kept(pre, killed);
        let s = survivors(pre, killed);
        assert forall|i: int| 0 <= i < s.len() implies table.contains(#[trigger] s[i]) by {
            assert(pre.contains(s[i]));
            let w = choose|w: int| 0 <= w < pre.len() && pre[w] == s[i];
            assert(table[w] == s[i]);
        }
        if !killed.contains(table.last().pid) {
            assert forall|i: int| 0 <= i < s.len() implies #[trigger] s.push(table.last())[i]
                == s[i] by {}
        }
        assert(table[table.len() - 1] == table.last());
    }
}

proof fn lemma_no_targets(table: Seq<ProcessRecord>, my_pid: u32, except: u32)
    requires
        forall|i: int| 0 <= i < table.len() ==> !is_target(#[trigger] table[i], my_pid, except),
    ensures
        kill_targets(table, my_pid, except) == Seq::<u32>::empty(),
    decreases table.len(),
{
    if table.len() > 0 {
        let pre = table.drop_last();
        assert forall|i: int| 0 <= i < pre.len() implies !is_target(#[trigger] pre[i], my_pid, except) by {
            assert(pre[i] == table[i]);
        }
        lemma_no_targets(pre, my_pid, except);
        assert(table.last() == table[table.len() - 1]);
    }
}

/// After one pass, no process of a static table that has the supervisor as
/// its parent and is not the exempt one is still alive.
pub proof fn lemma_pass_leaves_no_orphans(table: Seq<ProcessRecord>, my_pid: u32, except: u32)
    ensures
        forall|i: int|
            0 <= i < survivors(table, kill_targets(table, my_pid, except)).len()
                ==> !is_target(
                #[trigger] survivors(table, kill_targets(table, my_pid, except))[i],
                my_pid,
                except,
            ),
{
    let killed = kill_targets(table, my_pid, except);
    let s = survivors(table, killed);
    lemma_survivors_kept(table, killed);
    lemma_targets_complete(table, my_pid, except);
    assert forall|i: int| 0 <= i < s.len() implies !is_target(#[trigger] s[i], my_pid, except) by {
        let j = choose|j: int| 0 <= j < table.len() && table[j] == s[i];
        if is_target(s[i], my_pid, except) {
            assert(is_target(table[j], my_pid, except));
            assert(killed.contains(table[j].pid));
        }
    }
}

/// A second pass right after the first, on a static table, kills nothing.
pub proof fn lemma_second_pass_kills_nothing(table: Seq<ProcessRecord>, my_pid: u32, except: u32)
    ensures
        kill_targets(survivors(table, kill_targets(table, my_pid, except)), my_pid, except)
            == Seq::<u32>::empty(),
{
    lemma_pass_leaves_no_orphans(table, my_pid, except);
    lemma_no_targets(survivors(table, kill_targets(table, my_pid, except)), my_pid, except);
}

/// The exempt process is never among those a pass kills.
pub proof fn lemma_exempt_never_killed(table: Seq<ProcessRecord>, my_pid: u32, except: u32)
    ensures
        !kill_targets(table, my_pid, except).contains(except),
{
    lemma_targets_spare_exempt(table, my_pid, except);
}

/// Where no row has pid 0, exempting 0 exempts nothing: the pass kills
/// every direct child.
pub proof fn lemma_exempt_zero_exempts_nothing(table: Seq<ProcessRecord>, my_pid: u32)
    requires
        forall|i: int| 0 <= i < table.len() ==> (#[trigger] table[i]).pid != 0,
    ensures
        kill_targets(table, my_pid, 0) == children_of(table, my_pid),
    decreases table.len(),
{
    if table.len() > 0 {
        let pre = table.drop_last();
        assert forall|i: int| 0 <= i < pre.len() implies (#[trigger] pre[i]).pid != 0 by {
            assert(pre[i] == table[i]);
        }
        lemma_exempt_zero_exempts_nothing(pre, my_pid);
        assert(table.last() == table[table.len() - 1]);
    }
}

} // verus!
