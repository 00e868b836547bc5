use kata_agent::signal::{effective_signal, is_signal_handled, parse_caught_mask, SIGKILL, SIGTERM};

const NO_TERM_HANDLER: &[u8] = b"Name:\tsleep\nState:\tS (sleeping)\nSigBlk:\t0000000000000000\nSigIgn:\t0000000000000000\nSigCgt:\t0000000000000000\n";
const TERM_HANDLER: &[u8] = b"Name:\tapp\nSigCgt:\t0000000000004a02\n";

#[test]
fn sigterm_promoted_for_init_without_handler() {
    let status = NO_TERM_HANDLER.to_vec();
    let handled = is_signal_handled(&status, 15);
    assert!(!handled);
    assert_eq!(effective_signal(true, SIGTERM, handled), SIGKILL);
}

#[test]
fn sigterm_kept_when_handled_or_not_init() {
    let status = TERM_HANDLER.to_vec();
    assert!(is_signal_handled(&status, 15));
    assert_eq!(effective_signal(true, SIGTERM, true), SIGTERM);
    assert_eq!(effective_signal(false, SIGTERM, false), SIGTERM);
    assert_eq!(effective_signal(true, 2, false), 2);
}

#[test]
fn caught_mask_parsing() {
    assert_eq!(parse_caught_mask(&TERM_HANDLER.to_vec()), Some(0x4a02));
    assert_eq!(parse_caught_mask(&b"SigCgt: FFFFFFFFFFFFFFFF \n".to_vec()), Some(u64::MAX));
    assert_eq!(parse_caught_mask(&b"SigCgt:\t1FFFFFFFFFFFFFFFF\n".to_vec()), None);
    assert_eq!(parse_caught_mask(&b"SigCgt:\tzz\n".to_vec()), None);
    assert_eq!(parse_caught_mask(&b"SigCgt:\n".to_vec()), None);
    assert_eq!(parse_caught_mask(&b"Name: x\n".to_vec()), None);
    assert_eq!(parse_caught_mask(&b"SigCgt:\t2\nSigCgt:\t4\n".to_vec()), Some(2));
    assert!(is_signal_handled(&b"SigCgt:\t8000000000000000".to_vec(), 64));
    assert!(is_signal_handled(&b"SigCgt:\t1".to_vec(), 1));
    assert!(!is_signal_handled(&Vec::new(), 15));
}
