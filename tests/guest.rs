use kata_agent::error::AgentError;
use kata_agent::guest::{get_agent_details, get_memory_info, parse_block_size, probe_text, FileRead, FileState};

#[test]
fn block_size_is_parsed() {
    assert_eq!(parse_block_size(&b"134217728\n".to_vec()), Some(134217728));
    assert_eq!(parse_block_size(&b"  7 ".to_vec()), Some(7));
    assert_eq!(parse_block_size(&b"18446744073709551615".to_vec()), Some(u64::MAX));
    assert_eq!(parse_block_size(&b"18446744073709551616".to_vec()), None);
    assert_eq!(parse_block_size(&b"8000000x".to_vec()), None);
    assert_eq!(parse_block_size(&b" \n".to_vec()), None);
}

#[test]
fn memory_info_outcomes() {
    let c = || FileRead::Content(b"4096\n".to_vec());
    assert_eq!(get_memory_info(true, true, c(), FileState::Present), Ok((4096, true)));
    assert_eq!(get_memory_info(true, true, FileRead::Missing, FileState::Missing), Ok((0, false)));
    assert_eq!(get_memory_info(false, false, FileRead::Failed, FileState::Failed), Ok((0, false)));
    assert_eq!(get_memory_info(true, false, FileRead::Failed, FileState::Present), Err(AgentError::Internal));
    assert_eq!(get_memory_info(true, false, FileRead::Content(vec![]), FileState::Present), Err(AgentError::Internal));
    assert_eq!(get_memory_info(false, true, c(), FileState::Failed), Err(AgentError::Internal));
}

#[test]
fn probe_text_is_prefixed_upper_hex() {
    assert_eq!(probe_text(0x1a2b), "0x1A2B");
    assert_eq!(probe_text(0), "0x0");
    assert_eq!(probe_text(u64::MAX), "0xFFFFFFFFFFFFFFFF");
    assert_eq!(probe_text(0x40000000), format!("{:#X}", 0x40000000u64));
}

#[test]
fn agent_details_init_daemon() {
    let d = get_agent_details("1.0", 1, vec!["blk".to_string()]);
    assert!(d.init_daemon);
    assert_eq!(d.version, "1.0");
    assert!(!d.supports_seccomp);
    assert_eq!(d.storage_handlers, vec!["blk".to_string()]);
    assert!(!get_agent_details("1.0", 77, vec![]).init_daemon);
}
