use kata_agent::error::AgentError;
use kata_agent::network::routes_after_update;
use kata_agent::stdio::{read_outcome, win_size, write_outcome, EAGAIN};

#[test]
fn write_outcomes() {
    assert_eq!(write_outcome(10, Ok(10)), Ok(10));
    assert_eq!(write_outcome(10, Ok(4)), Ok(4));
    assert_eq!(write_outcome(10, Err(EAGAIN)), Ok(0));
    assert_eq!(write_outcome(10, Err(5)), Err(AgentError::Io));
}

#[test]
fn read_outcomes() {
    assert_eq!(read_outcome(Ok(b"hi".to_vec())), Ok(b"hi".to_vec()));
    assert_eq!(read_outcome(Ok(vec![])), Err(AgentError::Eof));
    assert_eq!(read_outcome(Err(EAGAIN)), Ok(vec![]));
    assert_eq!(read_outcome(Err(9)), Err(AgentError::Io));
}

#[test]
fn window_size_truncates() {
    let w = win_size(24, 80);
    assert_eq!((w.ws_row, w.ws_col, w.ws_xpixel, w.ws_ypixel), (24, 80, 0, 0));
    let w = win_size(65536 + 5, 70000);
    assert_eq!((w.ws_row, w.ws_col), (5, 4464));
}

#[test]
fn failed_route_update_reports_previous_routes() {
    let before = vec!["10.0.0.0/8".to_string()];
    let applied = vec!["192.168.0.0/16".to_string()];
    assert_eq!(routes_after_update(before.clone(), Ok(applied.clone())), applied);
    assert_eq!(routes_after_update(before.clone(), Err(AgentError::Internal)), before);
}
