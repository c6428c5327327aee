use sysinfo::cmdline::{parse_command_line, parse_i32_digits, parse_ps_line, split_space_fields};

fn toks(ts: &[&[u8]]) -> Vec<Vec<u8>> {
    ts.iter().map(|t| t.to_vec()).collect()
}

#[test]
fn quote_merging_rejoins_fragmented_argument() {
    let merged = parse_command_line(&toks(&[b"cmd", b"'hello", b"world'"]));
    assert_eq!(merged.len(), 2);
    assert_eq!(merged[0], b"cmd".to_vec());
    assert_eq!(merged[1], b"hello world".to_vec());
}

#[test]
fn quote_merging_handles_double_quotes() {
    let merged = parse_command_line(&toks(&[b"\"a", b"b\"", b"c"]));
    assert_eq!(merged.len(), 2);
    assert_eq!(merged[0], b"a b".to_vec());
    assert_eq!(merged[1], b"c".to_vec());
}

#[test]
fn quote_merging_single_token_pair() {
    let merged = parse_command_line(&toks(&[b"'hi'"]));
    assert_eq!(merged.len(), 1);
    assert_eq!(merged[0], b"hi".to_vec());
}

#[test]
fn quote_merging_unclosed_runs_to_end() {
    let merged = parse_command_line(&toks(&[b"'a", b"b"]));
    assert_eq!(merged.len(), 1);
    assert_eq!(merged[0], b"a b".to_vec());
}

#[test]
fn unquoted_tokens_pass_through() {
    let merged = parse_command_line(&toks(&[b"ls", b"-l", b"a b"]));
    assert_eq!(merged, toks(&[b"ls", b"-l", b"a b"]));
}

#[test]
fn split_fields_drops_empty_runs() {
    let fields = split_space_fields(&b"  12  /bin/ls  -l".to_vec());
    assert_eq!(fields, toks(&[b"12", b"/bin/ls", b"-l"]));
}

#[test]
fn parse_digits_accepts_plain_numbers() {
    assert_eq!(parse_i32_digits(&b"123".to_vec()), Some(123));
    assert_eq!(parse_i32_digits(&b"0".to_vec()), Some(0));
    assert_eq!(parse_i32_digits(&b"2147483647".to_vec()), Some(2147483647));
}

#[test]
fn parse_digits_rejects_bad_input() {
    assert_eq!(parse_i32_digits(&b"".to_vec()), None);
    assert_eq!(parse_i32_digits(&b"12a".to_vec()), None);
    assert_eq!(parse_i32_digits(&b"-3".to_vec()), None);
    assert_eq!(parse_i32_digits(&b"2147483648".to_vec()), None);
}

#[test]
fn ps_line_parses_parent_and_command() {
    let pi = parse_ps_line(&b"  123 /bin/ls -l\n".to_vec()).unwrap();
    assert_eq!(pi.ppid, 123);
    assert_eq!(pi.command, toks(&[b"/bin/ls", b"-l"]));
}

#[test]
fn ps_line_merges_quoted_arguments() {
    let pi = parse_ps_line(&b"1 cmd 'hello world'".to_vec()).unwrap();
    assert_eq!(pi.ppid, 1);
    assert_eq!(pi.command, toks(&[b"cmd", b"hello world"]));
}

#[test]
fn ps_line_needs_two_fields() {
    assert!(parse_ps_line(&b"123".to_vec()).is_none());
    assert!(parse_ps_line(&b"   ".to_vec()).is_none());
    assert!(parse_ps_line(&b"".to_vec()).is_none());
}

#[test]
fn ps_line_rejects_non_numeric_parent() {
    assert!(parse_ps_line(&b"abc /bin/ls".to_vec()).is_none());
}
