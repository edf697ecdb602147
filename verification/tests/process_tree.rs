//! Process-tree enumeration over snapshot tables, and the live sysinfo
//! boundary on safe pids.

use tome::process::{descendants, ProcEntry, Process};

fn entry(pid: u32, parent: u32) -> ProcEntry {
    ProcEntry { pid, parent: Some(parent) }
}

#[test]
fn direct_children_are_found() {
    let table = vec![entry(200, 100), entry(201, 100), entry(300, 999)];
    let mut d = descendants(&table, 100);
    d.sort();
    assert_eq!(d, vec![200, 201]);
}

#[test]
fn grandchildren_are_found_too() {
    // A launcher (200) spawned by the supervised process (100) spawns the
    // real server (300) before any signal arrives: killing 100 must reach
    // both 200 and 300.
    let table = vec![entry(200, 100), entry(300, 200), entry(400, 300), entry(999, 1)];
    let mut d = descendants(&table, 100);
    d.sort();
    assert_eq!(d, vec![200, 300, 400]);
}

#[test]
fn unrelated_processes_are_left_alone() {
    let table = vec![entry(200, 100), entry(300, 200)];
    assert!(descendants(&table, 300).is_empty());
    assert!(descendants(&table, 555).is_empty());
}

#[test]
fn parent_cycles_terminate() {
    // A snapshot with a stale, cyclic parent chain must not loop forever.
    let table = vec![entry(2, 3), entry(3, 2)];
    assert!(descendants(&table, 1).is_empty());
    let mut d = descendants(&table, 2);
    d.sort();
    assert_eq!(d, vec![2, 3]);
}

#[test]
fn no_parent_rows_are_ignored() {
    let table = vec![ProcEntry { pid: 7, parent: None }, entry(8, 7)];
    assert_eq!(descendants(&table, 7), vec![8]);
}

#[test]
fn children_of_wraps_pids_in_handles() {
    let table = vec![entry(200, 100), entry(300, 200)];
    let p = Process { pid: 100 };
    let kids = p.children_of(&table);
    let mut pids: Vec<u32> = kids.iter().map(|c| c.pid).collect();
    pids.sort();
    assert_eq!(pids, vec![200, 300]);
}

#[test]
fn current_process_is_visible() {
    let me = Process::current().expect("the current pid is readable here");
    let found = Process::find(me.pid).expect("the current process is in the table");
    assert_eq!(found.pid, me.pid);
}

#[test]
fn killing_a_nonexistent_pid_reports_failure() {
    // A pid far outside the valid range: nothing to signal, so kill reports
    // that the primary process was not found.
    let ghostly = Process { pid: u32::MAX - 7 };
    assert!(Process::find(ghostly.pid).is_none());
    assert!(!ghostly.kill());
}
