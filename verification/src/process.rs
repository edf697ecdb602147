//! Process-tree bookkeeping. Interpreter-launched servers spawn grandchildren
//! that outlive a plain child kill, so stopping a server means enumerating
//! every process whose parent chain reaches it and signalling each one.
//!
//! The enumeration is verified over a snapshot of the OS process table; the
//! snapshot itself and the signals go through `sysinfo`.

use vstd::prelude::*;
use vstd::seq_lib::*;
use vstd::set_lib::lemma_len_subset;

verus! {

/// One row of a process-table snapshot: a process and, where the OS reports
/// one, its parent.
#[derive(Clone, Copy, Debug, PartialEq, Eq, Structural)]
pub struct ProcEntry {
    pub pid: u32,
    pub parent: Option<u32>,
}

/// The snapshot records `c` as a direct child of `p`.
pub open spec fn child_of(table: Seq<ProcEntry>, c: u32, p: u32) -> bool {
    exists|i: int|
        0 <= i < table.len() && table[i].pid == c && table[i].parent == Some(p)
}

/// `p` descends from `root` through a parent chain of length at most `k`.
pub open spec fn descends_within(table: Seq<ProcEntry>, p: u32, root: u32, k: nat) -> bool
    decreases k,
{
    k > 0 && (child_of(table, p, root) || exists|q: u32|
        descends_within(table, q, root, (k - 1) as nat) && #[trigger] child_of(table, p, q))
}

/// `p` descends from `root` in the snapshot: some parent chain reaches `root`.
pub open spec fn descends(table: Seq<ProcEntry>, p: u32, root: u32) -> bool {
    exists|k: nat| descends_within(table, p, root, k)
}

/// A recorded child of `root` descends from it.
pub proof fn lemma_descends_child(table: Seq<ProcEntry>, c: u32, root: u32)
    requires
        child_of(table, c, root),
    ensures
        descends(table, c, root),
{
    assert(descends_within(table, c, root, 1));
}

/// A recorded child of a descendant is itself a descendant: grandchildren of
/// a killed process are reaped along with its children.
pub proof fn lemma_descends_step(table: Seq<ProcEntry>, c: u32, q: u32, root: u32)
    requires
        descends(table, q, root),
        child_of(table, c, q),
    ensures
        descends(table, c, root),
{
    let k = choose|k: nat| descends_within(table, q, root, k);
    assert(descends_within(table, c, root, k + 1));
}

/// `found` already holds every recorded child of `root` and every recorded
/// child of anything it holds.
pub open spec fn step_closed(table: Seq<ProcEntry>, found: Seq<u32>, root: u32) -> bool {
    (forall|c: u32| #[trigger] child_of(table, c, root) ==> found.contains(c)) && (forall|
        c: u32,
        q: u32,
    |
        #[trigger] child_of(table, c, q) && found.contains(q) ==> found.contains(c))
}

/// A step-closed set that holds the direct children holds every descendant.
proof fn lemma_step_closed_complete(
    table: Seq<ProcEntry>,
    found: Seq<u32>,
    root: u32,
    p: u32,
    k: nat,
)
    requires
        step_closed(table, found, root),
        descends_within(table, p, root, k),
    ensures
        found.contains(p),
    decreases k,
{
    if child_of(table, p, root) {
    } else {
        let q = choose|q: u32|
            descends_within(table, q, root, (k - 1) as nat) && #[trigger] child_of(table, p, q);
        lemma_step_closed_complete(table, found, root, q, (k - 1) as nat);
    }
}

/// Distinct pids that all occur in the table are no more numerous than its rows.
proof fn lemma_found_bounded(found: Seq<u32>, table: Seq<ProcEntry>)
    requires
        found.no_duplicates(),
        forall|x: u32| #[trigger] found.contains(x) ==> exists|i: int|
            0 <= i < table.len() && table[i].pid == x,
    ensures
        found.len() <= table.len(),
{
    broadcast use seq_to_set_is_finite;

    let pids = table.map_values(|e: ProcEntry| e.pid);
    found.unique_seq_to_set();
    pids.lemma_cardinality_of_set();
    assert forall|x: u32| found.to_set().contains(x) implies pids.to_set().contains(x) by {
        let i = choose|i: int| 0 <= i < table.len() && table[i].pid == x;
        assert(pids[i] == x);
        assert(pids.contains(x));
    }
    lemma_len_subset(found.to_set(), pids.to_set());
}

/// Linear membership scan.
fn pids_contain(v: &Vec<u32>, x: u32) -> (r: bool)
    ensures
        r == v@.contains(x),
{
    let n = v.len();
    let mut i: usize = 0;
    while i < n
        invariant
            i <= n,
            n == v@.len(),
            forall|j: int| 0 <= j < i ==> v@[j] != x,
        decreases n - i,
    {
        if v[i] == x {
            return true;
        }
        i += 1;
    }
    false
}

/// Every process in the snapshot whose parent chain reaches `root`.
///
/// The snapshot is re-scanned to a fixpoint, so children of children — the
/// grandchildren an interpreter launcher leaves behind — are found without
/// any cached tree.
pub fn descendants(table: &Vec<ProcEntry>, root: u32) -> (r: Vec<u32>)
    ensures
        forall|p: u32| #[trigger] r@.contains(p) <==> descends(table@, p, root),
        r@.no_duplicates(),
{
    let n = table.len();
    let mut found: Vec<u32> = Vec::new();
    let mut changed = true;
    while changed
        invariant
            n == table@.len(),
            found@.no_duplicates(),
            found@.len() <= n,
            forall|x: u32| #[trigger] found@.contains(x) ==> descends(table@, x, root),
            forall|x: u32| #[trigger] found@.contains(x) ==> exists|i: int|
                0 <= i < table@.len() && table@[i].pid == x,
            !changed ==> step_closed(table@, found@, root),
        decreases n + 1 - found@.len(), (if changed { 1int } else { 0int }),
    {
        let ghost fuel = found@.len();
        changed = false;
        let mut j: usize = 0;
        while j < n
            invariant
                n == table@.len(),
                j <= n,
                found@.no_duplicates(),
                found@.len() <= n,
                forall|x: u32| #[trigger] found@.contains(x) ==> descends(table@, x, root),
                forall|x: u32| #[trigger] found@.contains(x) ==> exists|i: int|
                    0 <= i < table@.len() && table@[i].pid == x,
                changed ==> found@.len() > fuel,
                fuel <= found@.len(),
                !changed ==> forall|i: int|
                    0 <= i < j ==> ((table@[i].parent == Some(root) ==> found@.contains(
                        #[trigger] table@[i].pid,
                    )) && (forall|q: u32|
                        table@[i].parent == Some(q) && found@.contains(q)
                            ==> found@.contains(table@[i].pid))),
            decreases n - j,
        {
            let entry = table[j];
            match entry.parent {
                Some(q) => {
                    let qualifies = q == root || pids_contain(&found, q);
                    if qualifies && !pids_contain(&found, entry.pid) {
                        let ghost pre = found@;
                        proof {
                            assert(child_of(table@, entry.pid, q)) by {
                                assert(table@[j as int].pid == entry.pid
                                    && table@[j as int].parent == Some(q));
                            }
                            if q == root {
                                lemma_descends_child(table@, entry.pid, root);
                            } else {
                                lemma_descends_step(table@, entry.pid, q, root);
                            }
                        }
                        found.push(entry.pid);
                        changed = true;
                        proof {
                            broadcast use lemma_seq_contains_after_push;

                            assert(found@ == pre.push(entry.pid));
                            lemma_found_bounded(found@, table@);
                        }
                    }
                },
                None => {},
            }
            j += 1;
        }
        proof {
            if !changed {
                assert forall|c: u32| #[trigger] child_of(table@, c, root) implies found@.contains(
                    c,
                ) by {
                    let i = choose|i: int|
                        0 <= i < table@.len() && table@[i].pid == c && table@[i].parent == Some(
                            root,
                        );
                }
                assert forall|c: u32, q: u32|
                    #[trigger] child_of(table@, c, q) && found@.contains(q) implies found@.contains(
                    c,
                ) by {
                    let i = choose|i: int|
                        0 <= i < table@.len() && table@[i].pid == c && table@[i].parent == Some(q);
                }
            }
        }
    }
    proof {
        assert forall|p: u32| descends(table@, p, root) implies found@.contains(p) by {
            let k = choose|k: nat| descends_within(table@, p, root, k);
            lemma_step_closed_complete(table@, found@, root, p, k);
        }
    }
    found
}

/// Relies on `sysinfo::System::new_all` and `System::processes`: a fresh scan
/// of the OS process table, one row per process. The table is keyed by pid,
/// so pids are pairwise distinct. What the scan finds depends on the machine
/// at that instant, so nothing else is promised.
#[verifier::external_body]
fn process_snapshot() -> (r: Vec<ProcEntry>)
    ensures
        forall|i: int, j: int| 0 <= i < j < r@.len() ==> r@[i].pid != r@[j].pid,
{
    let sys = sysinfo::System::new_all();
    sys.processes()
        .iter()
        .map(|(pid, proc)| ProcEntry {
            pid: pid.as_u32(),
            parent: proc.parent().map(|p| p.as_u32()),
        })
        .collect()
}

/// Relies on `sysinfo::System::process` and `sysinfo::Process::kill`:
/// `true` when the process was found and the kill signal was sent.
/// Best effort — the pid may have exited or be unkillable.
#[verifier::external_body]
fn signal_kill(pid: u32) -> (r: bool) {
    match sysinfo::System::new_all().process(sysinfo::Pid::from_u32(pid)) {
        Some(p) => p.kill(),
        None => false,
    }
}

/// Relies on `sysinfo::System::process`: whether a fresh scan of the process
/// table finds the pid.
#[verifier::external_body]
fn process_exists(pid: u32) -> (r: bool) {
    sysinfo::System::new_all().process(sysinfo::Pid::from_u32(pid)).is_some()
}

/// Relies on `sysinfo::get_current_pid`: the calling process's own pid, or
/// `None` on a platform the crate cannot read it on.
#[verifier::external_body]
fn current_pid() -> (r: Option<u32>) {
    match sysinfo::get_current_pid() {
        Ok(pid) => Some(pid.as_u32()),
        Err(_) => None,
    }
}

/// A handle on the right to look up and signal one OS process. Never assumed
/// alive: every operation re-resolves the pid against a fresh process-table
/// scan, so acting on a reused identifier is avoided.
#[derive(Clone, Copy, Debug, PartialEq, Eq, Hash, Structural)]
pub struct Process {
    pub pid: u32,
}

impl Process {
    /// The application's own process, where the platform reports it.
    pub fn current() -> (r: Option<Process>) {
        match current_pid() {
            Some(pid) => Some(Process { pid }),
            None => None,
        }
    }

    /// A handle on `pid`, if a fresh scan finds such a process.
    pub fn find(pid: u32) -> (r: Option<Process>)
        ensures
            match r {
                Some(p) => p.pid == pid,
                None => true,
            },
    {
        if process_exists(pid) {
            Some(Process { pid })
        } else {
            None
        }
    }

    /// Every descendant recorded in `table`, as process handles.
    pub fn children_of(&self, table: &Vec<ProcEntry>) -> (r: Vec<Process>)
        ensures
            forall|p: u32|
                (exists|i: int| 0 <= i < r@.len() && r@[i].pid == p) <==> descends(
                    table@,
                    p,
                    self.pid,
                ),
    {
        let pids = descendants(table, self.pid);
        let mut procs: Vec<Process> = Vec::new();
        let n = pids.len();
        let mut i: usize = 0;
        while i < n
            invariant
                i <= n,
                n == pids@.len(),
                procs@.len() == i,
                forall|j: int| 0 <= j < i ==> procs@[j].pid == pids@[j],
            decreases n - i,
        {
            procs.push(Process { pid: pids[i] });
            i += 1;
        }
        proof {
            assert forall|p: u32|
                (exists|i2: int| 0 <= i2 < procs@.len() && procs@[i2].pid == p) <==> descends(
                    table@,
                    p,
                    self.pid,
                ) by {
                if exists|i2: int| 0 <= i2 < procs@.len() && procs@[i2].pid == p {
                    let i2 = choose|i2: int| 0 <= i2 < procs@.len() && procs@[i2].pid == p;
                    assert(pids@.contains(p)) by {
                        assert(pids@[i2] == p);
                    }
                }
                if descends(table@, p, self.pid) {
                    assert(pids@.contains(p));
                    let i2 = choose|i2: int| 0 <= i2 < pids@.len() && pids@[i2] == p;
                    assert(procs@[i2].pid == p);
                }
            }
        }
        procs
    }

    /// Every current descendant of this process, from a fresh table scan.
    /// Which processes the scan sees depends on the machine at that instant.
    pub fn children(&self) -> (r: Vec<Process>) {
        let table = process_snapshot();
        self.children_of(&table)
    }

    /// Best-effort kill of this process and its whole descendant tree:
    /// resolves the descendants first, signals each of them, then signals the
    /// process itself. Returns whether the primary process was found and
    /// signalled; a descendant that could not be signalled is not an error.
    pub fn kill(&self) -> (r: bool) {
        let table = process_snapshot();
        let procs = self.children_of(&table);
        let n = procs.len();
        let mut i: usize = 0;
        while i < n
            invariant
                i <= n,
                n == procs@.len(),
            decreases n - i,
        {
            let _ = signal_kill(procs[i].pid);
            i += 1;
        }
        signal_kill(self.pid)
    }
}

} // verus!
