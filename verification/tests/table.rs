use sysinfo::process::{status_from_code, thread_status_from_code, ProcessStatus, ThreadStatus};
use sysinfo::refresh::{
    PidObservation, RefreshAction, TaskAllSample, TaskSample, ThreadSample,
};
use sysinfo::system::System;

fn proc_args_buf(exe: &[u8], args: &[&[u8]], envs: &[&[u8]]) -> Vec<u8> {
    let mut b: Vec<u8> = Vec::new();
    b.extend_from_slice(&(args.len() as u32).to_le_bytes());
    b.extend_from_slice(exe);
    b.push(0);
    for a in args {
        b.extend_from_slice(a);
        b.push(0);
    }
    for e in envs {
        b.extend_from_slice(e);
        b.push(0);
    }
    b.push(0);
    b
}

fn empty_obs(pid: i32, now: u64) -> PidObservation {
    PidObservation {
        pid,
        now,
        thread: None,
        task: None,
        info: None,
        args: None,
        ps_line: None,
    }
}

fn full_obs(pid: i32, now: u64, resident: u64) -> PidObservation {
    PidObservation {
        pid,
        now,
        thread: None,
        task: None,
        info: Some(TaskAllSample {
            ppid: 1,
            start_time: 1000,
            uid: 501,
            gid: 20,
            status_code: 2,
            task: TaskSample {
                total_user: 0,
                total_system: 0,
                resident_bytes: resident,
                virtual_bytes: 4096 * 1024,
            },
        }),
        args: Some(proc_args_buf(b"/usr/bin/foo", &[b"foo", b"-x"], &[b"HOME=/root"])),
        ps_line: None,
    }
}

#[test]
fn new_pid_is_fully_decoded_and_inserted() {
    let mut s = System::new(4);
    let ok = s.refresh_process(&full_obs(42, 10, 2048 * 1024));
    assert!(ok);
    let p = s.get_process(42).unwrap();
    assert_eq!(p.pid, 42);
    assert_eq!(p.parent, Some(1));
    assert_eq!(p.exe, b"/usr/bin/foo".to_vec());
    assert_eq!(p.name, b"foo".to_vec());
    assert_eq!(p.cmd, vec![b"foo".to_vec(), b"-x".to_vec()]);
    assert_eq!(p.root, b"/usr/bin".to_vec());
    assert_eq!(p.memory, 2048);
    assert_eq!(p.virtual_memory, 4096);
    assert_eq!(p.uid, 501);
    assert_eq!(p.gid, 20);
    assert_eq!(p.start_time, 1000);
    assert!(matches!(p.process_status, ProcessStatus::Run));
}

#[test]
fn live_entry_is_updated_incrementally() {
    let mut s = System::new(4);
    assert!(s.refresh_process(&full_obs(7, 100, 1024 * 1024)));
    assert!(matches!(s.plan_refresh(7), RefreshAction::Incremental));
    let obs = PidObservation {
        pid: 7,
        now: 300,
        thread: Some(ThreadSample { user_time: 10, system_time: 10, run_state: 1 }),
        task: Some(TaskSample {
            total_user: 40,
            total_system: 40,
            resident_bytes: 3000 * 1024,
            virtual_bytes: 5000 * 1024,
        }),
        info: None,
        args: None,
        ps_line: None,
    };
    assert!(s.refresh_process(&obs));
    let p = s.get_process(7).unwrap();
    // command line was not re-decoded
    assert_eq!(p.cmd, vec![b"foo".to_vec(), b"-x".to_vec()]);
    assert_eq!(p.memory, 3000);
    assert_eq!(p.virtual_memory, 5000);
    // first observation of the counters: usage is zero
    assert_eq!(p.cpu.ticks, 0);
    let prev = p.prev_sample.unwrap();
    assert_eq!(prev.task_time, 100);
    assert_eq!(prev.time, 300);
    // second observation: 100 more ticks over 100 time units
    let obs2 = PidObservation {
        pid: 7,
        now: 400,
        thread: Some(ThreadSample { user_time: 60, system_time: 60, run_state: 3 }),
        task: Some(TaskSample {
            total_user: 40,
            total_system: 40,
            resident_bytes: 3000 * 1024,
            virtual_bytes: 5000 * 1024,
        }),
        info: None,
        args: None,
        ps_line: None,
    };
    assert!(s.refresh_process(&obs2));
    let p = s.get_process(7).unwrap();
    assert_eq!(p.cpu.ticks, 100);
    assert_eq!(p.cpu.elapsed, 100);
}

#[test]
fn incremental_failure_keeps_stale_entry() {
    let mut s = System::new(4);
    assert!(s.refresh_process(&full_obs(7, 100, 1024 * 1024)));
    // task counters unreadable this round: failure, but the entry stays
    let ok = s.refresh_process(&empty_obs(7, 200));
    assert!(!ok);
    assert!(s.get_process(7).is_some());
}

#[test]
fn permission_denied_entry_is_re_decoded_in_full() {
    let mut s = System::new(4);
    // the textual fallback inserts an entry with resident memory zero
    let obs = PidObservation {
        ps_line: Some(b"1 /bin/slippery -q\n".to_vec()),
        ..empty_obs(9, 50)
    };
    assert!(s.refresh_process(&obs));
    let p = s.get_process(9).unwrap();
    assert_eq!(p.memory, 0);
    assert_eq!(p.cmd, vec![b"/bin/slippery".to_vec(), b"-q".to_vec()]);
    assert_eq!(p.parent, Some(1));
    // zero resident memory marks it for a full re-decode, never an
    // incremental update
    assert!(matches!(s.plan_refresh(9), RefreshAction::FullDecode));
    assert!(s.refresh_process(&full_obs(9, 60, 512 * 1024)));
    let p = s.get_process(9).unwrap();
    assert_eq!(p.memory, 512);
    assert_eq!(p.exe, b"/usr/bin/foo".to_vec());
}

#[test]
fn status_codes_map_to_the_small_enums() {
    assert!(matches!(status_from_code(1), ProcessStatus::Idle));
    assert!(matches!(status_from_code(3), ProcessStatus::Sleep));
    assert!(matches!(status_from_code(4), ProcessStatus::Stop));
    assert!(matches!(status_from_code(5), ProcessStatus::Zombie));
    assert!(matches!(status_from_code(9), ProcessStatus::Unknown(9)));
    assert!(matches!(thread_status_from_code(1), ThreadStatus::Running));
    assert!(matches!(thread_status_from_code(3), ThreadStatus::Waiting));
    assert!(matches!(thread_status_from_code(4), ThreadStatus::Uninterruptible));
    assert!(matches!(thread_status_from_code(7), ThreadStatus::Unknown(7)));
}

#[test]
fn unknown_pid_plans_full_decode() {
    let s = System::new(4);
    assert!(matches!(s.plan_refresh(12345), RefreshAction::FullDecode));
}

#[test]
fn dead_pid_refresh_fails_without_inserting() {
    let mut s = System::new(4);
    let ok = s.refresh_process(&empty_obs(31337, 5));
    assert!(!ok);
    assert!(s.get_process(31337).is_none());
    assert_eq!(s.get_process_list().len(), 0);
}

#[test]
fn cycle_keeps_live_set_and_prunes_the_rest() {
    let mut s = System::new(4);
    s.refresh_processes(&vec![full_obs(1, 10, 1024 * 1024), full_obs(2, 10, 1024 * 1024)]);
    assert!(s.get_process(1).is_some());
    assert!(s.get_process(2).is_some());
    // next cycle: 1 has exited; 2 is live but unreadable; 3 is new
    let stale_2 = empty_obs(2, 20);
    let new_3 = full_obs(3, 20, 1024 * 1024);
    s.refresh_processes(&vec![stale_2, new_3]);
    assert!(s.get_process(1).is_none());
    // present in the live set: never removed, even though its read failed
    assert!(s.get_process(2).is_some());
    assert!(s.get_process(3).is_some());
    assert_eq!(s.get_process_list().len(), 2);
}

#[test]
fn cycle_drops_new_pid_whose_queries_all_failed() {
    let mut s = System::new(4);
    s.refresh_processes(&vec![empty_obs(77, 1)]);
    assert!(s.get_process(77).is_none());
}

#[test]
fn empty_enumeration_aborts_the_cycle() {
    let mut s = System::new(4);
    s.refresh_processes(&vec![full_obs(5, 1, 1024 * 1024)]);
    assert_eq!(s.get_process_list().len(), 1);
    s.refresh_processes(&Vec::new());
    assert_eq!(s.get_process_list().len(), 1);
    assert!(s.get_process(5).is_some());
}

#[test]
fn cycle_falls_back_to_the_textual_lister() {
    let mut s = System::new(4);
    let obs = PidObservation {
        ps_line: Some(b"0 init\n".to_vec()),
        ..empty_obs(1, 1)
    };
    s.refresh_processes(&vec![obs]);
    let p = s.get_process(1).unwrap();
    assert_eq!(p.parent, None);
    assert_eq!(p.name, b"init".to_vec());
    assert_eq!(p.start_time, 0);
}
