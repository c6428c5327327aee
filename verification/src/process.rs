use vstd::prelude::*;

use crate::cpu::CpuShare;

verus! {

/// Run status of a process, mapped from the kernel's small status code.
#[derive(Clone, Copy, PartialEq, Eq, Structural, Debug)]
pub enum ProcessStatus {
    Idle,
    Run,
    Sleep,
    Stop,
    Zombie,
    Unknown(u32),
}

pub open spec fn spec_status_from_code(c: u32) -> ProcessStatus {
    if c == 1 {
        ProcessStatus::Idle
    } else if c == 2 {
        ProcessStatus::Run
    } else if c == 3 {
        ProcessStatus::Sleep
    } else if c == 4 {
        ProcessStatus::Stop
    } else if c == 5 {
        ProcessStatus::Zombie
    } else {
        ProcessStatus::Unknown(c)
    }
}

pub fn status_from_code(c: u32) -> (r: ProcessStatus)
    ensures
        r == spec_status_from_code(c),
{
    if c == 1 {
        ProcessStatus::Idle
    } else if c == 2 {
        ProcessStatus::Run
    } else if c == 3 {
        ProcessStatus::Sleep
    } else if c == 4 {
        ProcessStatus::Stop
    } else if c == 5 {
        ProcessStatus::Zombie
    } else {
        ProcessStatus::Unknown(c)
    }
}

/// Run state of a task's representative thread, separate from the process
/// status and also drawn from a small integer code.
#[derive(Clone, Copy, PartialEq, Eq, Structural, Debug)]
pub enum ThreadStatus {
    Running,
    Stopped,
    Waiting,
    Uninterruptible,
    Halted,
    Unknown(i32),
}

pub open spec fn spec_thread_status_from_code(c: i32) -> ThreadStatus {
    if c == 1 {
        ThreadStatus::Running
    } else if c == 2 {
        ThreadStatus::Stopped
    } else if c == 3 {
        ThreadStatus::Waiting
    } else if c == 4 {
        ThreadStatus::Uninterruptible
    } else if c == 5 {
        ThreadStatus::Halted
    } else {
        ThreadStatus::Unknown(c)
    }
}

pub fn thread_status_from_code(c: i32) -> (r: ThreadStatus)
    ensures
        r == spec_thread_status_from_code(c),
{
    if c == 1 {
        ThreadStatus::Running
    } else if c == 2 {
        ThreadStatus::Stopped
    } else if c == 3 {
        ThreadStatus::Waiting
    } else if c == 4 {
        ThreadStatus::Uninterruptible
    } else if c == 5 {
        ThreadStatus::Halted
    } else {
        ThreadStatus::Unknown(c)
    }
}

/// The cumulative task-time counter and the host timestamp at which it was
/// sampled; the pair a later refresh computes its delta against.
#[derive(Clone, Copy, PartialEq, Eq, Structural, Debug)]
pub struct CpuSample {
    pub task_time: u64,
    pub time: u64,
}

/// One live process as the snapshot holds it.
pub struct Process {
    pub pid: i32,
    pub parent: Option<i32>,
    pub exe: Vec<u8>,
    pub name: Vec<u8>,
    pub cmd: Vec<Vec<u8>>,
    pub environ: Vec<Vec<u8>>,
    pub root: Vec<u8>,
    pub memory: u64,
    pub virtual_memory: u64,
    pub uid: u32,
    pub gid: u32,
    pub start_time: u64,
    pub process_status: ProcessStatus,
    pub status: Option<ThreadStatus>,
    pub prev_sample: Option<CpuSample>,
    pub cpu: CpuShare,
    pub updated: bool,
}

/// The mathematical image of a process descriptor.
pub ghost struct ProcessModel {
    pub pid: i32,
    pub parent: Option<i32>,
    pub exe: Seq<u8>,
    pub name: Seq<u8>,
    pub cmd: Seq<Seq<u8>>,
    pub environ: Seq<Seq<u8>>,
    pub root: Seq<u8>,
    pub memory: u64,
    pub virtual_memory: u64,
    pub uid: u32,
    pub gid: u32,
    pub start_time: u64,
    pub process_status: ProcessStatus,
    pub status: Option<ThreadStatus>,
    pub prev_sample: Option<CpuSample>,
    pub cpu: CpuShare,
    pub updated: bool,
}

impl View for Process {
    type V = ProcessModel;

    open spec fn view(&self) -> ProcessModel {
        ProcessModel {
            pid: self.pid,
            parent: self.parent,
            exe: self.exe@,
            name: self.name@,
            cmd: self.cmd.deep_view(),
            environ: self.environ.deep_view(),
            root: self.root@,
            memory: self.memory,
            virtual_memory: self.virtual_memory,
            uid: self.uid,
            gid: self.gid,
            start_time: self.start_time,
            process_status: self.process_status,
            status: self.status,
            prev_sample: self.prev_sample,
            cpu: self.cpu,
            updated: self.updated,
        }
    }
}

impl DeepView for Process {
    type V = ProcessModel;

    open spec fn deep_view(&self) -> ProcessModel {
        self@
    }
}

/// Index of the first entry with the given id, or the length when none has
/// it.
pub open spec fn find_pid(s: Seq<ProcessModel>, pid: i32) -> int
    decreases s.len(),
{
    if s.len() == 0 {
        0
    } else if s[0].pid == pid {
        0
    } else {
        1 + find_pid(s.subrange(1, s.len() as int), pid)
    }
}

pub open spec fn has_pid(s: Seq<ProcessModel>, pid: i32) -> bool {
    find_pid(s, pid) < s.len()
}

/// The entry with the given id, when the table holds one.
pub open spec fn lookup(s: Seq<ProcessModel>, pid: i32) -> Option<ProcessModel> {
    if has_pid(s, pid) {
        Some(s[find_pid(s, pid)])
    } else {
        None
    }
}

/// No two entries share an id: the table is a map.
pub open spec fn pids_distinct(s: Seq<ProcessModel>) -> bool {
    forall|i: int, j: int| 0 <= i < j < s.len() ==> #[trigger] s[i].pid != #[trigger] s[j].pid
}

pub proof fn lemma_find_pid(s: Seq<ProcessModel>, pid: i32)
    ensures
        0 <= find_pid(s, pid) <= s.len(),
        find_pid(s, pid) < s.len() ==> s[find_pid(s, pid)].pid == pid,
        forall|k: int| 0 <= k < find_pid(s, pid) ==> s[k].pid != pid,
    decreases s.len(),
{
    if s.len() > 0 && s[0].pid != pid {
        let t = s.subrange(1, s.len() as int);
        lemma_find_pid(t, pid);
        assert forall|k: int| 0 <= k < find_pid(s, pid) implies s[k].pid != pid by {
            if k > 0 {
                assert(s[k] == t[k - 1]);
            }
        }
    }
}

pub proof fn lemma_find_pid_at(s: Seq<ProcessModel>, i: int)
    requires
        0 <= i < s.len(),
        forall|k: int| 0 <= k < i ==> s[k].pid != s[i].pid,
    ensures
        find_pid(s, s[i].pid) == i,
    decreases s.len(),
{
    if i > 0 {
        let t = s.subrange(1, s.len() as int);
        assert(forall|k: int| 0 <= k < i - 1 ==> (#[trigger] t[k]).pid != t[i - 1].pid);
        lemma_find_pid_at(t, i - 1);
    }
}

pub proof fn lemma_find_pid_same_pids(s: Seq<ProcessModel>, t: Seq<ProcessModel>, pid: i32)
    requires
        s.len() == t.len(),
        forall|k: int| 0 <= k < s.len() ==> s[k].pid == #[trigger] t[k].pid,
    ensures
        find_pid(s, pid) == find_pid(t, pid),
    decreases s.len(),
{
    if s.len() > 0 && s[0].pid != pid {
        let s1 = s.subrange(1, s.len() as int);
        let t1 = t.subrange(1, t.len() as int);
        assert(forall|k: int| 0 <= k < s1.len() ==> (#[trigger] s1[k]).pid == t1[k].pid);
        lemma_find_pid_same_pids(s1, t1, pid);
    }
}

/// Replacing an entry with one of the same id moves the lookup of that id
/// to the new entry and no other.
pub proof fn lemma_lookup_update(s: Seq<ProcessModel>, i: int, m: ProcessModel, q: i32)
    requires
        pids_distinct(s),
        0 <= i < s.len(),
        m.pid == s[i].pid,
    ensures
        pids_distinct(s.update(i, m)),
        lookup(s.update(i, m), q) == (if q == m.pid {
            Some(m)
        } else {
            lookup(s, q)
        }),
{
    let t = s.update(i, m);
    assert(forall|k: int| 0 <= k < s.len() ==> s[k].pid == #[trigger] t[k].pid);
    lemma_find_pid_same_pids(s, t, q);
    lemma_find_pid(s, q);
    lemma_find_pid(t, q);
    if q == m.pid {
        lemma_find_pid_at(s, i);
    }
}

/// Appending an entry whose id is new adds exactly that lookup.
pub proof fn lemma_lookup_push(s: Seq<ProcessModel>, m: ProcessModel, q: i32)
    requires
        pids_distinct(s),
        !has_pid(s, m.pid),
    ensures
        pids_distinct(s.push(m)),
        lookup(s.push(m), q) == (if q == m.pid {
            Some(m)
        } else {
            lookup(s, q)
        }),
{
    let t = s.push(m);
    lemma_find_pid(s, q);
    lemma_find_pid(t, q);
    lemma_find_pid(s, m.pid);
    assert(forall|k: int| 0 <= k < s.len() ==> s[k].pid != m.pid) by {
        lemma_find_pid(s, m.pid);
    }
    assert(pids_distinct(t)) by {
        assert(forall|i: int, j: int|
            0 <= i < j < t.len() ==> (#[trigger] t[i]).pid != (#[trigger] t[j]).pid) by {
            assert(forall|i: int| 0 <= i < s.len() ==> (#[trigger] t[i]).pid == s[i].pid);
        }
    }
    if q == m.pid {
        lemma_find_pid_at(t, s.len() as int);
    } else {
        if has_pid(s, q) {
            lemma_find_pid_at(t, find_pid(s, q));
        } else {
            if find_pid(t, q) < t.len() {
                assert(t[find_pid(t, q)].pid == q);
                if find_pid(t, q) < s.len() {
                    assert(s[find_pid(t, q)].pid == q);
                    lemma_find_pid_at(s, find_pid(t, q));
                }
            }
        }
    }
}

} // verus!
