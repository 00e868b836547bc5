use kata_agent::error::AgentError;
use kata_agent::ps::{filter_process_table, list_pids_json, parse_format, parse_pid, ps_args, split_fields, split_lines, ListFormat};

#[test]
fn table_filter_keeps_header_and_container_rows() {
    let out = b"UID PID PPID C STIME TTY TIME CMD\n\
root 1 0 0 10:00 ? 00:00:01 /sbin/init\n\
root 42 1 0 10:01 ? 00:00:00 sleep 100\n\
root 99 1 0 10:02 ? 00:00:00 other\n"
        .to_vec();
    let r = filter_process_table(&out, &vec![42]).unwrap();
    assert_eq!(
        String::from_utf8(r).unwrap(),
        "UID PID PPID C STIME TTY TIME CMD\nroot 42 1 0 10:01 ? 00:00:00 sleep 100\n"
    );
}

#[test]
fn table_filter_skips_blank_short_and_non_numeric_rows() {
    let out = b"  PID TTY CMD\n\n   \n  7\n abc tty x\n 8 tty y\n".to_vec();
    let r = filter_process_table(&out, &vec![7, 8]).unwrap();
    assert_eq!(String::from_utf8(r).unwrap(), "  PID TTY CMD\n  7\n 8 tty y\n");
}

#[test]
fn table_without_pid_column_is_refused() {
    let out = b"USER CMD\nroot init\n".to_vec();
    assert_eq!(filter_process_table(&out, &vec![1]), Err(AgentError::Internal));
    assert_eq!(filter_process_table(&Vec::new(), &vec![1]), Err(AgentError::Internal));
}

#[test]
fn table_with_no_matching_pid_has_only_header() {
    let out = b"PID CMD\n1 init\n".to_vec();
    assert_eq!(filter_process_table(&out, &vec![]).unwrap(), b"PID CMD\n".to_vec());
}

#[test]
fn lines_and_fields_split() {
    assert_eq!(split_lines(&b"a\nb\n".to_vec()), vec![b"a".to_vec(), b"b".to_vec(), vec![]]);
    assert_eq!(split_lines(&Vec::new()), vec![Vec::<u8>::new()]);
    assert_eq!(
        split_fields(&b" a\tbc  d ".to_vec()),
        vec![b"a".to_vec(), b"bc".to_vec(), b"d".to_vec()]
    );
    assert!(split_fields(&b"   ".to_vec()).is_empty());
}

#[test]
fn pid_parse_limits() {
    assert_eq!(parse_pid(&b"42".to_vec()), Some(42));
    assert_eq!(parse_pid(&b"2147483647".to_vec()), Some(2147483647));
    assert_eq!(parse_pid(&b"2147483648".to_vec()), None);
    assert_eq!(parse_pid(&b"99999999999999999999".to_vec()), None);
    assert_eq!(parse_pid(&b"4x".to_vec()), None);
    assert_eq!(parse_pid(&Vec::new()), None);
}

#[test]
fn formats_and_default_args() {
    assert_eq!(parse_format("table"), Ok(ListFormat::Table));
    assert_eq!(parse_format("json"), Ok(ListFormat::Json));
    assert_eq!(parse_format("xml"), Err(AgentError::InvalidArgument));
    assert_eq!(ps_args(vec![]), vec!["-ef".to_string()]);
    assert_eq!(ps_args(vec!["aux".to_string()]), vec!["aux".to_string()]);
}

#[test]
fn pids_as_json() {
    assert_eq!(list_pids_json(&vec![42]).unwrap(), b"[42]".to_vec());
    assert_eq!(list_pids_json(&vec![1, -2, 300]).unwrap(), b"[1,-2,300]".to_vec());
    assert_eq!(list_pids_json(&vec![]).unwrap(), b"[]".to_vec());
}
