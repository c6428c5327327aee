use sysinfo::bytes::{file_name, make_name, parent_dir};
use sysinfo::procargs::decode_proc_args;

fn buf_with(argc: u32, exe: &[u8], pad: usize, args: &[&[u8]], envs: &[&[u8]]) -> Vec<u8> {
    let mut b: Vec<u8> = Vec::new();
    b.extend_from_slice(&argc.to_le_bytes());
    b.extend_from_slice(exe);
    b.push(0);
    for _ in 0..pad {
        b.push(0);
    }
    for a in args {
        b.extend_from_slice(a);
        b.push(0);
    }
    for e in envs {
        b.extend_from_slice(e);
        b.push(0);
    }
    b.push(0);
    b
}

#[test]
fn decode_absolute_exe_with_embedded_space() {
    let buf = buf_with(
        2,
        b"/usr/bin/foo",
        2,
        &[b"foo", b"bar baz"],
        &[b"HOME=/root"],
    );
    let pa = decode_proc_args(&buf).unwrap();
    assert_eq!(pa.exe, b"/usr/bin/foo".to_vec());
    assert_eq!(pa.name, b"foo".to_vec());
    assert_eq!(pa.argv.len(), 2);
    assert_eq!(pa.argv[0], b"foo".to_vec());
    assert_eq!(pa.argv[1], b"bar baz".to_vec());
    assert_eq!(pa.root, b"/usr/bin".to_vec());
}

#[test]
fn decode_relative_exe_takes_root_from_path_entry() {
    let buf = buf_with(1, b"foo", 3, &[b"foo"], &[b"TERM=xterm", b"PATH=/opt/x"]);
    let pa = decode_proc_args(&buf).unwrap();
    assert_eq!(pa.name, b"foo".to_vec());
    // the root is the entry's offset-6 slice: one past the literal
    // prefix, deliberately not a trim of it
    assert_eq!(pa.root, b"opt/x".to_vec());
    assert_eq!(pa.envp.len(), 2);
}

#[test]
fn decode_relative_exe_without_path_entry_leaves_root_empty() {
    let buf = buf_with(1, b"foo", 1, &[b"foo"], &[b"TERM=xterm"]);
    let pa = decode_proc_args(&buf).unwrap();
    assert_eq!(pa.root, Vec::<u8>::new());
}

#[test]
fn decode_short_header_fails() {
    let buf = vec![1u8, 0, 0];
    assert!(decode_proc_args(&buf).is_none());
    let empty: Vec<u8> = Vec::new();
    assert!(decode_proc_args(&empty).is_none());
}

#[test]
fn decode_header_only_yields_empty_fields() {
    let buf = vec![5u8, 0, 0, 0];
    let pa = decode_proc_args(&buf).unwrap();
    assert_eq!(pa.exe, Vec::<u8>::new());
    assert_eq!(pa.name, Vec::<u8>::new());
    assert!(pa.argv.is_empty());
    assert!(pa.envp.is_empty());
    assert_eq!(pa.root, Vec::<u8>::new());
}

#[test]
fn decode_negative_count_reads_no_arguments() {
    let mut buf = vec![0xffu8, 0xff, 0xff, 0xff];
    buf.extend_from_slice(b"/bin/sh");
    buf.push(0);
    buf.extend_from_slice(b"sh");
    buf.push(0);
    let pa = decode_proc_args(&buf).unwrap();
    assert!(pa.argv.is_empty());
}

#[test]
fn decode_exhausted_buffer_stops_early() {
    // argc says 3, but only one terminated argument fits.
    let mut buf = vec![3u8, 0, 0, 0];
    buf.extend_from_slice(b"/bin/a");
    buf.push(0);
    buf.extend_from_slice(b"a");
    buf.push(0);
    let pa = decode_proc_args(&buf).unwrap();
    assert_eq!(pa.argv.len(), 1);
    assert_eq!(pa.argv[0], b"a".to_vec());
    assert!(pa.envp.is_empty());
}

#[test]
fn decode_environment_stops_at_empty_string() {
    let mut buf = buf_with(1, b"/bin/a", 0, &[b"a"], &[b"X=1"]);
    // after the builder's trailing NUL (the empty string), junk follows
    buf.extend_from_slice(b"IGNORED=1");
    buf.push(0);
    let pa = decode_proc_args(&buf).unwrap();
    assert_eq!(pa.envp.len(), 1);
    assert_eq!(pa.envp[0], b"X=1".to_vec());
}

#[test]
fn make_name_truncates_at_first_nul() {
    assert_eq!(make_name(&b"disk0\0junk".to_vec()), b"disk0".to_vec());
    assert_eq!(make_name(&b"disk1".to_vec()), b"disk1".to_vec());
}

#[test]
fn file_name_and_parent_dir() {
    assert_eq!(file_name(&b"/usr/bin/foo".to_vec()), b"foo".to_vec());
    assert_eq!(file_name(&b"foo".to_vec()), b"foo".to_vec());
    assert_eq!(parent_dir(&b"/usr/bin/foo".to_vec()), b"/usr/bin".to_vec());
    assert_eq!(parent_dir(&b"/foo".to_vec()), b"/".to_vec());
    assert_eq!(parent_dir(&b"foo".to_vec()), Vec::<u8>::new());
}
