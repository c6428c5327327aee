use vstd::prelude::*;

use crate::bytes::spec_file_name;
use crate::bytes::file_name as file_name_of;
use crate::bytes::sub_vec;
use crate::cmdline::{
    dec_value, parse_ps_line, ps_line_ok, space_fields, spec_ps_command, strip_newlines, PsInfo,
};
use crate::cpu::{cpu_share_zero, process_cpu_share, spec_process_cpu_share, zero_share};
use crate::procargs::{decode_proc_args, spec_argv, spec_envp, spec_exe, spec_root};
use crate::process::{
    find_pid, has_pid, lemma_find_pid, lemma_find_pid_at, lemma_find_pid_same_pids,
    lemma_lookup_push, lemma_lookup_update, lookup, pids_distinct, spec_status_from_code,
    spec_thread_status_from_code, status_from_code, thread_status_from_code, CpuSample, Process,
    ProcessModel, ProcessStatus, ThreadStatus,
};
use crate::system::System;

verus! {

/// One reading of the per-thread counters of a task: cumulative user and
/// system time and the run-state code of the representative thread.
#[derive(Clone, Copy, PartialEq, Eq, Structural, Debug)]
pub struct ThreadSample {
    pub user_time: u64,
    pub system_time: u64,
    pub run_state: i32,
}

/// One reading of a task's own counters: cumulative CPU time and the two
/// memory figures, in bytes.
#[derive(Clone, Copy, PartialEq, Eq, Structural, Debug)]
pub struct TaskSample {
    pub total_user: u64,
    pub total_system: u64,
    pub resident_bytes: u64,
    pub virtual_bytes: u64,
}

/// The fixed per-process record the kernel serves for a full decode:
/// identity, start time, owner, status code, and the task counters.
#[derive(Clone, Copy, PartialEq, Eq, Structural, Debug)]
pub struct TaskAllSample {
    pub ppid: i32,
    pub start_time: u64,
    pub uid: u32,
    pub gid: u32,
    pub status_code: u32,
    pub task: TaskSample,
}

/// Everything the platform layer could observe about one process id in
/// one cycle. A query that failed is absent; the refresh decides from the
/// table state which parts it uses.
pub struct PidObservation {
    pub pid: i32,
    pub now: u64,
    pub thread: Option<ThreadSample>,
    pub task: Option<TaskSample>,
    pub info: Option<TaskAllSample>,
    pub args: Option<Vec<u8>>,
    pub ps_line: Option<Vec<u8>>,
}

pub ghost struct ObsModel {
    pub pid: i32,
    pub now: u64,
    pub thread: Option<ThreadSample>,
    pub task: Option<TaskSample>,
    pub info: Option<TaskAllSample>,
    pub args: Option<Seq<u8>>,
    pub ps_line: Option<Seq<u8>>,
}

impl View for PidObservation {
    type V = ObsModel;

    open spec fn view(&self) -> ObsModel {
        ObsModel {
            pid: self.pid,
            now: self.now,
            thread: self.thread,
            task: self.task,
            info: self.info,
            args: match self.args {
                Some(v) => Some(v@),
                None => None,
            },
            ps_line: match self.ps_line {
                Some(v) => Some(v@),
                None => None,
            },
        }
    }
}

pub open spec fn sat_add_spec(a: u64, b: u64) -> u64 {
    if a + b > u64::MAX {
        u64::MAX
    } else {
        (a + b) as u64
    }
}

fn sat_add(a: u64, b: u64) -> (r: u64)
    ensures
        r == sat_add_spec(a, b),
{
    if a <= u64::MAX - b {
        a + b
    } else {
        u64::MAX
    }
}

/// The cumulative task time of one observation: thread user and system
/// time plus the task totals, saturating rather than wrapping.
pub open spec fn spec_task_time(thread: Option<ThreadSample>, task: TaskSample) -> u64 {
    let th = match thread {
        Some(t) => sat_add_spec(t.user_time, t.system_time),
        None => 0u64,
    };
    sat_add_spec(sat_add_spec(th, task.total_user), task.total_system)
}

pub open spec fn spec_thread_status(thread: Option<ThreadSample>) -> Option<ThreadStatus> {
    match thread {
        Some(t) => Some(spec_thread_status_from_code(t.run_state)),
        None => None,
    }
}

/// An incremental update of a live entry: thread status always; and when
/// the task counters could be read, the CPU share against the previous
/// sample and the two memory figures. The command line is not re-decoded:
/// it is stable for a live process.
pub open spec fn incremental_model(p: ProcessModel, o: ObsModel) -> ProcessModel {
    match o.task {
        None => ProcessModel { status: spec_thread_status(o.thread), updated: true, ..p },
        Some(task) => {
            let tt = spec_task_time(o.thread, task);
            ProcessModel {
                status: spec_thread_status(o.thread),
                cpu: (match p.prev_sample {
                    None => zero_share(),
                    Some(ps) => spec_process_cpu_share(ps.time, ps.task_time, o.now, tt),
                }),
                prev_sample: Some(CpuSample { task_time: tt, time: o.now }),
                memory: task.resident_bytes / 1024,
                virtual_memory: task.virtual_bytes / 1024,
                updated: true,
                ..p
            }
        },
    }
}

/// A fully decoded entry: identity from the fixed record, command line
/// and root from the argument buffer, no CPU sample yet.
pub open spec fn full_model(pid: i32, info: TaskAllSample, buf: Seq<u8>) -> ProcessModel
    recommends
        buf.len() >= 4,
{
    ProcessModel {
        pid,
        parent: if info.ppid == 0 {
            None
        } else {
            Some(info.ppid)
        },
        exe: spec_exe(buf),
        name: spec_file_name(spec_exe(buf)),
        cmd: spec_argv(buf),
        environ: spec_envp(buf),
        root: spec_root(spec_exe(buf), spec_envp(buf)),
        memory: info.task.resident_bytes / 1024,
        virtual_memory: info.task.virtual_bytes / 1024,
        uid: info.uid,
        gid: info.gid,
        start_time: info.start_time,
        process_status: spec_status_from_code(info.status_code),
        status: None,
        prev_sample: None,
        cpu: zero_share(),
        updated: true,
    }
}

/// An entry drawn from the textual lister: parent id and command line
/// only; its resident memory stays zero, so the next cycle re-decodes it
/// in full.
pub open spec fn fallback_model(pid: i32, line: Seq<u8>) -> ProcessModel
    recommends
        ps_line_ok(line),
{
    let command = spec_ps_command(line);
    let ppid_v = dec_value(strip_newlines(space_fields(line, 0)[0]));
    ProcessModel {
        pid,
        parent: if ppid_v == 0 {
            None
        } else {
            Some(ppid_v as i32)
        },
        exe: command[0],
        name: spec_file_name(command[0]),
        cmd: command,
        environ: Seq::empty(),
        root: Seq::empty(),
        memory: 0,
        virtual_memory: 0,
        uid: 0,
        gid: 0,
        start_time: 0,
        process_status: ProcessStatus::Unknown(0),
        status: None,
        prev_sample: None,
        cpu: zero_share(),
        updated: true,
    }
}

pub open spec fn touch(p: ProcessModel) -> ProcessModel {
    ProcessModel { updated: true, ..p }
}

pub open spec fn clear_updated(p: ProcessModel) -> ProcessModel {
    ProcessModel { updated: false, ..p }
}

/// What a full-decode attempt leaves for one id: the decoded entry when
/// the fixed record and a buffer long enough for its header are there;
/// else the lister's entry when its line parses; else the old entry kept
/// but marked touched, or nothing at all for an id not in the table.
pub open spec fn step_full(before: Option<ProcessModel>, o: ObsModel) -> Option<ProcessModel> {
    match (o.info, o.args) {
        (Some(info), Some(buf)) => if buf.len() >= 4 {
            Some(full_model(o.pid, info, buf))
        } else {
            step_fallback(before, o)
        },
        _ => step_fallback(before, o),
    }
}

pub open spec fn step_fallback(before: Option<ProcessModel>, o: ObsModel) -> Option<
    ProcessModel,
> {
    match o.ps_line {
        Some(line) => if ps_line_ok(line) {
            Some(fallback_model(o.pid, line))
        } else {
            keep_touched(before)
        },
        None => keep_touched(before),
    }
}

pub open spec fn keep_touched(before: Option<ProcessModel>) -> Option<ProcessModel> {
    match before {
        Some(p) => Some(touch(p)),
        None => None,
    }
}

/// What one observation leaves in the table for its id: an incremental
/// update of a readable live entry; a full re-decode of a new id or of an
/// entry whose resident memory was zero (the permission-denied marker);
/// nothing for a new id whose every query failed.
pub open spec fn step_model(before: Option<ProcessModel>, o: ObsModel) -> Option<ProcessModel> {
    match before {
        Some(p) => if p.memory != 0 {
            Some(incremental_model(p, o))
        } else {
            step_full(before, o)
        },
        None => step_full(before, o),
    }
}

/// The success a single-id refresh reports: an existing entry always
/// counts as refreshed unless its task counters could not be read; a new
/// id counts only if some decode produced an entry.
pub open spec fn step_ok(before: Option<ProcessModel>, o: ObsModel) -> bool {
    match before {
        Some(p) => if p.memory != 0 {
            o.task is Some
        } else {
            true
        },
        None => step_full(before, o) is Some,
    }
}

/// What a refresh decides to do for one id, from the table alone.
#[derive(Clone, Copy, PartialEq, Eq, Structural, Debug)]
pub enum RefreshAction {
    Incremental,
    FullDecode,
}

pub open spec fn spec_plan(s: Seq<ProcessModel>, pid: i32) -> RefreshAction {
    match lookup(s, pid) {
        Some(p) => if p.memory != 0 {
            RefreshAction::Incremental
        } else {
            RefreshAction::FullDecode
        },
        None => RefreshAction::FullDecode,
    }
}

impl System {
    fn find_index(&self, pid: i32) -> (r: Option<usize>)
        ensures
            r matches Some(i) ==> i == find_pid(self.procs(), pid) && i < self.process_list.len(),
            r is None ==> !has_pid(self.procs(), pid),
    {
        let mut i: usize = 0;
        while i < self.process_list.len()
            invariant
                i <= self.process_list@.len(),
                forall|k: int| 0 <= k < i ==> self.procs()[k].pid != pid,
            decreases self.process_list.len() - i,
        {
            if self.process_list[i].pid == pid {
                proof {
                    assert(self.procs()[i as int].pid == pid);
                    lemma_find_pid_at(self.procs(), i as int);
                }
                return Some(i);
            }
            proof {
                assert(self.procs()[i as int].pid != pid);
            }
            i = i + 1;
        }
        proof {
            lemma_find_pid(self.procs(), pid);
            if has_pid(self.procs(), pid) {
                assert(self.procs()[find_pid(self.procs(), pid)].pid == pid);
            }
        }
        None
    }

    /// What the coming refresh will do for this id: an entry whose last
    /// read succeeded is updated incrementally; an entry whose resident
    /// memory is zero — the permission-denied marker — is always re-decoded
    /// in full, never updated incrementally; an unknown id is decoded in
    /// full.
    pub fn plan_refresh(&self, pid: i32) -> (a: RefreshAction)
        ensures
            a == spec_plan(self.procs(), pid),
            (match lookup(self.procs(), pid) {
                Some(p) => p.memory == 0 ==> a == RefreshAction::FullDecode,
                None => a == RefreshAction::FullDecode,
            }),
    {
        match self.find_index(pid) {
            Some(i) => {
                if self.process_list[i].memory != 0 {
                    RefreshAction::Incremental
                } else {
                    RefreshAction::FullDecode
                }
            },
            None => RefreshAction::FullDecode,
        }
    }

    /// Applies one observation to its id and reports success, exactly as
    /// a caller-triggered single-process refresh does: the table changes
    /// only at that id, per `step_model`; an id that no longer exists and
    /// yielded no data is reported failed and inserts nothing.
    pub fn refresh_process(&mut self, obs: &PidObservation) -> (ok: bool)
        requires
            old(self).wf(),
        ensures
            final(self).wf(),
            ok == step_ok(lookup(old(self).procs(), obs.pid), obs@),
            forall|q: i32|
                #[trigger] lookup(final(self).procs(), q) == (if q == obs.pid {
                    step_model(lookup(old(self).procs(), q), obs@)
                } else {
                    lookup(old(self).procs(), q)
                }),
            step_model(lookup(old(self).procs(), obs.pid), obs@) is None ==> final(self).process_list == old(self).process_list,
            final(self).mem_total == old(self).mem_total,
            final(self).mem_free == old(self).mem_free,
            final(self).swap_total == old(self).swap_total,
            final(self).swap_free == old(self).swap_free,
            final(self).page_size_kb == old(self).page_size_kb,
            final(self).processors == old(self).processors,
            final(self).cpu_ticks == old(self).cpu_ticks,
            final(self).aggregate == old(self).aggregate,
            final(self).uptime == old(self).uptime,
            final(self).disks == old(self).disks,
            final(self).disk_types == old(self).disk_types,
    {
        let ghost s0 = self.procs();
        match self.find_index(obs.pid) {
            Some(i) => {
                if self.process_list[i].memory != 0 {
                    let ghost before = s0[i as int];
                    let mut p = self.process_list.remove(i);
                    proof {
                        assert(p@ == before);
                    }
                    p.status = match obs.thread {
                        Some(t) => Some(thread_status_from_code(t.run_state)),
                        None => None,
                    };
                    let ok: bool = match obs.task {
                        Some(task) => {
                            let th: u64 = match obs.thread {
                                Some(t) => sat_add(t.user_time, t.system_time),
                                None => 0,
                            };
                            let tt = sat_add(sat_add(th, task.total_user), task.total_system);
                            let share = match p.prev_sample {
                                Some(ps) => process_cpu_share(
                                    ps.time,
                                    ps.task_time,
                                    obs.now,
                                    tt,
                                ),
                                None => cpu_share_zero(),
                            };
                            p.cpu = share;
                            p.prev_sample = Some(CpuSample { task_time: tt, time: obs.now });
                            p.memory = task.resident_bytes / 1024;
                            p.virtual_memory = task.virtual_bytes / 1024;
                            p.updated = true;
                            true
                        },
                        None => {
                            p.updated = true;
                            false
                        },
                    };
                    proof {
                        assert(p@ == incremental_model(before, obs@));
                    }
                    self.process_list.insert(i, p);
                    proof {
                        assert(self.procs() =~= s0.update(i as int, incremental_model(before, obs@)));
                        lemma_find_pid(s0, obs.pid);
                        assert forall|q: i32|
                            #[trigger] lookup(self.procs(), q) == (if q == obs.pid {
                                step_model(lookup(s0, q), obs@)
                            } else {
                                lookup(s0, q)
                            }) by {
                            lemma_lookup_update(s0, i as int, incremental_model(before, obs@), q);
                        }
                        assert(pids_distinct(self.procs())) by {
                            lemma_lookup_update(
                                s0,
                                i as int,
                                incremental_model(before, obs@),
                                obs.pid,
                            );
                        }
                    }
                    ok
                } else {
                    proof {
                        lemma_find_pid(self.procs(), obs.pid);
                    }
                    self.apply_full_at(Some(i), obs)
                }
            },
            None => self.apply_full_at(None, obs),
        }
    }

    /// The full-decode path for one id: the argument-buffer decode when
    /// the kernel served both records, else the textual lister's line,
    /// else the old entry is only marked touched (and a new id is
    /// dropped for the cycle).
    fn apply_full_at(&mut self, idx: Option<usize>, obs: &PidObservation) -> (ok: bool)
        requires
            old(self).wf(),
            (match idx {
                Some(i) => i < old(self).process_list@.len() && old(self).procs()[i as int].pid
                    == obs.pid,
                None => !has_pid(old(self).procs(), obs.pid),
            }),
        ensures
            final(self).wf(),
            ok == (match idx {
                Some(i) => true,
                None => step_full(None, obs@) is Some,
            }),
            forall|q: i32|
                #[trigger] lookup(final(self).procs(), q) == (if q == obs.pid {
                    step_full(lookup(old(self).procs(), q), obs@)
                } else {
                    lookup(old(self).procs(), q)
                }),
            step_full(lookup(old(self).procs(), obs.pid), obs@) is None ==> final(self).process_list == old(self).process_list,
            final(self).mem_total == old(self).mem_total,
            final(self).mem_free == old(self).mem_free,
            final(self).swap_total == old(self).swap_total,
            final(self).swap_free == old(self).swap_free,
            final(self).page_size_kb == old(self).page_size_kb,
            final(self).processors == old(self).processors,
            final(self).cpu_ticks == old(self).cpu_ticks,
            final(self).aggregate == old(self).aggregate,
            final(self).uptime == old(self).uptime,
            final(self).disks == old(self).disks,
            final(self).disk_types == old(self).disk_types,
    {
        let ghost s0 = self.procs();
        proof {
            if idx is Some {
                lemma_find_pid_at_distinct(s0, idx.unwrap() as int);
            }
        }
        match obs.info {
            Some(info) => {
                match &obs.args {
                    Some(buf) => {
                        match decode_proc_args(buf) {
                            Some(pa) => {
                                let p = Process {
                                    pid: obs.pid,
                                    parent: if info.ppid == 0 {
                                        None
                                    } else {
                                        Some(info.ppid)
                                    },
                                    exe: pa.exe,
                                    name: pa.name,
                                    cmd: pa.argv,
                                    environ: pa.envp,
                                    root: pa.root,
                                    memory: info.task.resident_bytes / 1024,
                                    virtual_memory: info.task.virtual_bytes / 1024,
                                    uid: info.uid,
                                    gid: info.gid,
                                    start_time: info.start_time,
                                    process_status: status_from_code(info.status_code),
                                    status: None,
                                    prev_sample: None,
                                    cpu: cpu_share_zero(),
                                    updated: true,
                                };
                                proof {
                                    assert(p@ == full_model(obs.pid, info, buf@));
                                }
                                self.install_at(idx, p);
                                return true;
                            },
                            None => {},
                        }
                    },
                    None => {},
                }
            },
            None => {},
        }
        match &obs.ps_line {
            Some(line) => {
                match parse_ps_line(line) {
                    Some(pi) => {
                        let PsInfo { ppid, command } = pi;
                        let exe = sub_vec(&command[0], 0, command[0].len());
                        let name = file_name_of(&exe);
                        proof {
                            assert(exe@ =~= spec_ps_command(line@)[0]);
                        }
                        let p = Process {
                            pid: obs.pid,
                            parent: if ppid == 0 {
                                None
                            } else {
                                Some(ppid)
                            },
                            exe,
                            name,
                            cmd: command,
                            environ: Vec::new(),
                            root: Vec::new(),
                            memory: 0,
                            virtual_memory: 0,
                            uid: 0,
                            gid: 0,
                            start_time: 0,
                            process_status: ProcessStatus::Unknown(0),
                            status: None,
                            prev_sample: None,
                            cpu: cpu_share_zero(),
                            updated: true,
                        };
                        proof {
                            assert(p@.environ =~~= fallback_model(obs.pid, line@).environ);
                            assert(p@.root =~= fallback_model(obs.pid, line@).root);
                            assert(p@ == fallback_model(obs.pid, line@));
                        }
                        self.install_at(idx, p);
                        return true;
                    },
                    None => {},
                }
            },
            None => {},
        }
        match idx {
            Some(i) => {
                let ghost before = s0[i as int];
                let mut p = self.process_list.remove(i);
                p.updated = true;
                proof {
                    assert(p@ == touch(before));
                }
                self.process_list.insert(i, p);
                proof {
                    assert(self.procs() =~= s0.update(i as int, touch(before)));
                    assert forall|q: i32|
                        #[trigger] lookup(self.procs(), q) == (if q == obs.pid {
                            step_full(lookup(s0, q), obs@)
                        } else {
                            lookup(s0, q)
                        }) by {
                        lemma_lookup_update(s0, i as int, touch(before), q);
                    }
                    lemma_lookup_update(s0, i as int, touch(before), obs.pid);
                }
                true
            },
            None => {
                proof {
                    lemma_find_pid(s0, obs.pid);
                }
                false
            },
        }
    }

    /// Replaces the entry at `idx`, or appends when the id is new.
    fn install_at(&mut self, idx: Option<usize>, p: Process)
        requires
            old(self).wf(),
            (match idx {
                Some(i) => i < old(self).process_list@.len() && old(self).procs()[i as int].pid
                    == p@.pid,
                None => !has_pid(old(self).procs(), p@.pid),
            }),
        ensures
            final(self).wf(),
            forall|q: i32|
                #[trigger] lookup(final(self).procs(), q) == (if q == p@.pid {
                    Some(p@)
                } else {
                    lookup(old(self).procs(), q)
                }),
            final(self).mem_total == old(self).mem_total,
            final(self).mem_free == old(self).mem_free,
            final(self).swap_total == old(self).swap_total,
            final(self).swap_free == old(self).swap_free,
            final(self).page_size_kb == old(self).page_size_kb,
            final(self).processors == old(self).processors,
            final(self).cpu_ticks == old(self).cpu_ticks,
            final(self).aggregate == old(self).aggregate,
            final(self).uptime == old(self).uptime,
            final(self).disks == old(self).disks,
            final(self).disk_types == old(self).disk_types,
    {
        let ghost s0 = self.procs();
        let ghost m = p@;
        match idx {
            Some(i) => {
                let _old = self.process_list.remove(i);
                self.process_list.insert(i, p);
                proof {
                    assert(self.procs() =~= s0.update(i as int, m));
                    assert forall|q: i32|
                        #[trigger] lookup(self.procs(), q) == (if q == m.pid {
                            Some(m)
                        } else {
                            lookup(s0, q)
                        }) by {
                        lemma_lookup_update(s0, i as int, m, q);
                    }
                    lemma_lookup_update(s0, i as int, m, m.pid);
                }
            },
            None => {
                self.process_list.push(p);
                proof {
                    assert(self.procs() =~= s0.push(m));
                    assert forall|q: i32|
                        #[trigger] lookup(self.procs(), q) == (if q == m.pid {
                            Some(m)
                        } else {
                            lookup(s0, q)
                        }) by {
                        lemma_lookup_push(s0, m, q);
                    }
                    lemma_lookup_push(s0, m, m.pid);
                }
            },
        }
    }
}

pub open spec fn clear_map(x: Option<ProcessModel>) -> Option<ProcessModel> {
    match x {
        Some(p) => Some(clear_updated(p)),
        None => None,
    }
}

/// What the liveness sweep keeps of one entry: a touched entry survives
/// with its mark reset, an untouched one is removed.
pub open spec fn sweep_map(x: Option<ProcessModel>) -> Option<ProcessModel> {
    match x {
        Some(p) => if p.updated {
            Some(clear_updated(p))
        } else {
            None
        },
        None => None,
    }
}

/// Does one of the first `n` observations carry this id?
pub open spec fn obs_contains(os: Seq<PidObservation>, n: int, q: i32) -> bool {
    exists|t: int| 0 <= t < n && (#[trigger] os[t]).pid == q
}

/// A cleared touch mark changes nothing about what an observation does:
/// every path of the step either overwrites the mark or ignores the old
/// entry.
pub proof fn lemma_step_clear(before: Option<ProcessModel>, o: ObsModel)
    ensures
        step_model(clear_map(before), o) == step_model(before, o),
{
    match before {
        Some(p) => {
            assert(incremental_model(clear_updated(p), o) == incremental_model(p, o));
            assert(touch(clear_updated(p)) == touch(p));
        },
        None => {},
    }
}

/// Whatever entry a step leaves carries the touch mark.
pub proof fn lemma_step_updated(before: Option<ProcessModel>, o: ObsModel)
    ensures
        (match step_model(before, o) {
            Some(m) => m.updated,
            None => true,
        }),
{
}

impl System {
    /// One whole refresh cycle over the enumerated live set: every
    /// observed id is refreshed per `step_model`, and the liveness sweep
    /// then removes exactly the ids the enumeration did not report — an
    /// id in the live set is never removed, an id absent from it never
    /// survives. An empty enumeration aborts the cycle and changes
    /// nothing.
    pub fn refresh_processes(&mut self, obs: &Vec<PidObservation>)
        requires
            old(self).wf(),
            forall|a: int, b: int|
                #![trigger obs@[a], obs@[b]]
                0 <= a < b < obs@.len() ==> obs@[a].pid != obs@[b].pid,
        ensures
            final(self).wf(),
            obs@.len() == 0 ==> final(self).process_list == old(self).process_list,
            obs@.len() >= 1 ==> (forall|j: int|
                0 <= j < obs@.len() ==> lookup(final(self).procs(), (#[trigger] obs@[j]).pid)
                    == sweep_map(
                    step_model(lookup(old(self).procs(), obs@[j].pid), obs@[j]@),
                )),
            obs@.len() >= 1 ==> (forall|q: i32|
                !obs_contains(obs@, obs@.len() as int, q) ==> #[trigger] lookup(
                    final(self).procs(),
                    q,
                ) is None),
            final(self).mem_total == old(self).mem_total,
            final(self).mem_free == old(self).mem_free,
            final(self).swap_total == old(self).swap_total,
            final(self).swap_free == old(self).swap_free,
            final(self).page_size_kb == old(self).page_size_kb,
            final(self).processors == old(self).processors,
            final(self).cpu_ticks == old(self).cpu_ticks,
            final(self).aggregate == old(self).aggregate,
            final(self).uptime == old(self).uptime,
            final(self).disks == old(self).disks,
            final(self).disk_types == old(self).disk_types,
    {
        if obs.len() == 0 {
            return ;
        }
        let ghost s0 = self.procs();

        // Reset every touch mark: only what this cycle touches survives it.
        let mut k: usize = 0;
        while k < self.process_list.len()
            invariant
                k <= self.process_list@.len(),
                self.process_list@.len() == s0.len(),
                forall|t: int| 0 <= t < k ==> self.procs()[t] == clear_updated(s0[t]),
                forall|t: int| k <= t < s0.len() ==> self.procs()[t] == s0[t],
                self.mem_total == old(self).mem_total,
                self.mem_free == old(self).mem_free,
                self.swap_total == old(self).swap_total,
                self.swap_free == old(self).swap_free,
                self.page_size_kb == old(self).page_size_kb,
                self.processors == old(self).processors,
                self.cpu_ticks == old(self).cpu_ticks,
                self.aggregate == old(self).aggregate,
                self.uptime == old(self).uptime,
                self.disks == old(self).disks,
                self.disk_types == old(self).disk_types,
            decreases self.process_list@.len() - k,
        {
            let ghost sk = self.procs();
            let mut p = self.process_list.remove(k);
            p.updated = false;
            proof {
                assert(p@ == clear_updated(sk[k as int]));
            }
            self.process_list.insert(k, p);
            proof {
                assert(self.procs() =~= sk.update(k as int, clear_updated(sk[k as int])));
            }
            k = k + 1;
        }
        let ghost s1 = self.procs();
        proof {
            assert(pids_distinct(s1)) by {
                assert(forall|t: int|
                    0 <= t < s1.len() ==> (#[trigger] s1[t]).pid == s0[t].pid);
            }
            assert forall|q: i32| #[trigger] lookup(s1, q) == clear_map(lookup(s0, q)) by {
                assert(forall|t: int|
                    0 <= t < s0.len() ==> s0[t].pid == (#[trigger] s1[t]).pid);
                lemma_find_pid_same_pids(s0, s1, q);
                lemma_find_pid(s0, q);
            }
        }

        // Apply every observation of the live set, each to its own id.
        let mut j: usize = 0;
        while j < obs.len()
            invariant
                j <= obs@.len(),
                self.wf(),
                forall|a: int, b: int|
                    #![trigger obs@[a], obs@[b]]
                    0 <= a < b < obs@.len() ==> obs@[a].pid != obs@[b].pid,
                forall|t: int|
                    0 <= t < j ==> lookup(self.procs(), (#[trigger] obs@[t]).pid) == step_model(
                        lookup(s1, obs@[t].pid),
                        obs@[t]@,
                    ),
                forall|q: i32|
                    !obs_contains(obs@, j as int, q) ==> #[trigger] lookup(self.procs(), q)
                        == lookup(s1, q),
                self.mem_total == old(self).mem_total,
                self.mem_free == old(self).mem_free,
                self.swap_total == old(self).swap_total,
                self.swap_free == old(self).swap_free,
                self.page_size_kb == old(self).page_size_kb,
                self.processors == old(self).processors,
                self.cpu_ticks == old(self).cpu_ticks,
                self.aggregate == old(self).aggregate,
                self.uptime == old(self).uptime,
                self.disks == old(self).disks,
                self.disk_types == old(self).disk_types,
            decreases obs@.len() - j,
        {
            let ghost sb = self.procs();
            let ghost pj = obs@[j as int].pid;
            proof {
                assert(!obs_contains(obs@, j as int, pj));
                assert(lookup(sb, pj) == lookup(s1, pj));
            }
            let _ok = self.refresh_process(&obs[j]);
            proof {
                assert forall|t: int|
                    0 <= t < j + 1 implies lookup(self.procs(), (#[trigger] obs@[t]).pid)
                    == step_model(lookup(s1, obs@[t].pid), obs@[t]@) by {
                    if t < j {
                        assert(obs@[t].pid != pj);
                        assert(lookup(self.procs(), obs@[t].pid) == lookup(sb, obs@[t].pid));
                    } else {
                        assert(lookup(self.procs(), pj) == step_model(lookup(sb, pj), obs@[j as int]@));
                    }
                }
                assert forall|q: i32|
                    !obs_contains(obs@, j + 1 as int, q) implies #[trigger] lookup(
                    self.procs(),
                    q,
                ) == lookup(s1, q) by {
                    assert(!obs_contains(obs@, j as int, q));
                    assert(q != pj);
                    assert(lookup(self.procs(), q) == lookup(sb, q));
                }
            }
            j = j + 1;
        }
        let ghost s2 = self.procs();

        // Liveness sweep: keep exactly what this cycle touched, with the
        // marks reset for the next cycle.
        let ghost total = s2.len() as int;
        let ghost mut m: int = 0;
        let mut kept: Vec<Process> = Vec::new();
        proof {
            assert(self.procs() =~= s2.subrange(0, total));
        }
        while self.process_list.len() > 0
            invariant
                0 <= m <= total,
                total == s2.len(),
                pids_distinct(s2),
                self.procs() == s2.subrange(m, total),
                self.process_list@.len() == total - m,
                pids_distinct(kept.deep_view()),
                forall|q: i32|
                    #[trigger] lookup(kept.deep_view(), q) == sweep_map(
                        lookup(s2.subrange(0, m), q),
                    ),
                self.mem_total == old(self).mem_total,
                self.mem_free == old(self).mem_free,
                self.swap_total == old(self).swap_total,
                self.swap_free == old(self).swap_free,
                self.page_size_kb == old(self).page_size_kb,
                self.processors == old(self).processors,
                self.cpu_ticks == old(self).cpu_ticks,
                self.aggregate == old(self).aggregate,
                self.uptime == old(self).uptime,
                self.disks == old(self).disks,
                self.disk_types == old(self).disk_types,
            decreases self.process_list@.len(),
        {
            let ghost prefix = s2.subrange(0, m);
            let ghost kept0 = kept.deep_view();
            let ghost sm = self.procs();
            let p = self.process_list.remove(0);
            proof {
                assert(sm == s2.subrange(m, total));
                assert(sm[0] == s2[m]);
                assert(p@ == sm[0]);
                assert(self.procs() =~= sm.subrange(1, sm.len() as int));
                assert(sm.subrange(1, sm.len() as int) =~= s2.subrange(m + 1, total));
                assert(p@ == s2[m]);
                assert(self.procs() =~= s2.subrange(m + 1, total));
                assert(s2.subrange(0, m + 1) =~= prefix.push(s2[m]));
                assert(pids_distinct(prefix)) by {
                    assert(forall|t: int|
                        0 <= t < prefix.len() ==> (#[trigger] prefix[t]).pid == s2[t].pid);
                }
                assert(!has_pid(prefix, s2[m].pid)) by {
                    lemma_find_pid(prefix, s2[m].pid);
                    if has_pid(prefix, s2[m].pid) {
                        let f = find_pid(prefix, s2[m].pid);
                        assert(s2[f].pid == s2[m].pid);
                    }
                }
            }
            if p.updated {
                let mut p = p;
                p.updated = false;
                proof {
                    assert(p@ == clear_updated(s2[m]));
                    assert(lookup(kept0, p@.pid) == sweep_map(lookup(prefix, p@.pid)));
                    assert(lookup(prefix, p@.pid) is None);
                    assert(!has_pid(kept0, p@.pid)) by {
                        lemma_find_pid(kept0, p@.pid);
                    }
                }
                kept.push(p);
                proof {
                    assert(kept.deep_view() =~= kept0.push(clear_updated(s2[m])));
                    assert forall|q: i32|
                        #[trigger] lookup(kept.deep_view(), q) == sweep_map(
                            lookup(s2.subrange(0, m + 1), q),
                        ) by {
                        lemma_lookup_push(kept0, clear_updated(s2[m]), q);
                        lemma_lookup_push(prefix, s2[m], q);
                    }
                    lemma_lookup_push(kept0, clear_updated(s2[m]), s2[m].pid);
                }
            } else {
                proof {
                    assert forall|q: i32|
                        #[trigger] lookup(kept.deep_view(), q) == sweep_map(
                            lookup(s2.subrange(0, m + 1), q),
                        ) by {
                        lemma_lookup_push(prefix, s2[m], q);
                        if q == s2[m].pid {
                            assert(lookup(kept0, q) == sweep_map(lookup(prefix, q)));
                            assert(lookup(prefix, q) is None);
                        }
                    }
                }
            }
            proof {
                m = m + 1;
            }
        }
        self.process_list = kept;
        proof {
            assert(s2.subrange(0, total) =~= s2);
            assert forall|j2: int|
                0 <= j2 < obs@.len() implies lookup(self.procs(), (#[trigger] obs@[j2]).pid)
                == sweep_map(step_model(lookup(s0, obs@[j2].pid), obs@[j2]@)) by {
                assert(lookup(self.procs(), obs@[j2].pid) == sweep_map(
                    lookup(s2, obs@[j2].pid),
                ));
                assert(lookup(s2, obs@[j2].pid) == step_model(
                    lookup(s1, obs@[j2].pid),
                    obs@[j2]@,
                ));
                assert(lookup(s1, obs@[j2].pid) == clear_map(lookup(s0, obs@[j2].pid)));
                lemma_step_clear(lookup(s0, obs@[j2].pid), obs@[j2]@);
                lemma_step_updated(lookup(s0, obs@[j2].pid), obs@[j2]@);
            }
            assert forall|q: i32|
                !obs_contains(obs@, obs@.len() as int, q) implies #[trigger] lookup(
                self.procs(),
                q,
            ) is None by {
                assert(lookup(self.procs(), q) == sweep_map(lookup(s2, q)));
                assert(lookup(s2, q) == lookup(s1, q));
                assert(lookup(s1, q) == clear_map(lookup(s0, q)));
            }
        }
    }
}

impl System {
    pub fn get_process(&self, pid: i32) -> (r: Option<&Process>)
        ensures
            (match r {
                Some(p) => lookup(self.procs(), pid) == Some(p@),
                None => lookup(self.procs(), pid) is None,
            }),
    {
        match self.find_index(pid) {
            Some(i) => {
                proof {
                    lemma_find_pid(self.procs(), pid);
                }
                Some(&self.process_list[i])
            },
            None => {
                proof {
                    lemma_find_pid(self.procs(), pid);
                }
                None
            },
        }
    }
}

/// A process id that no longer exists yields no data at all: the
/// single-id refresh then reports failure, and the table gains no entry
/// for it.
pub proof fn lemma_dead_pid_refresh(s: Seq<ProcessModel>, o: ObsModel)
    requires
        !has_pid(s, o.pid),
        o.info is None,
        o.args is None,
        o.ps_line is None,
    ensures
        !step_ok(lookup(s, o.pid), o),
        step_model(lookup(s, o.pid), o) is None,
{
}

/// In a table with distinct ids, the entry at `i` is what its id looks
/// up.
pub proof fn lemma_find_pid_at_distinct(s: Seq<ProcessModel>, i: int)
    requires
        pids_distinct(s),
        0 <= i < s.len(),
    ensures
        find_pid(s, s[i].pid) == i,
        lookup(s, s[i].pid) == Some(s[i]),
{
    assert(forall|k: int| 0 <= k < i ==> s[k].pid != s[i].pid);
    lemma_find_pid_at(s, i);
}

} // verus!
