use kata_agent::copy::{copy_complete, copy_file_plan};
use kata_agent::error::AgentError;

#[test]
fn chunked_copy_commits_at_final_size() {
    let plan = copy_file_plan("/run/kata-containers/x/f").unwrap();
    assert_eq!(plan.dir, "/run/kata-containers/x");
    assert_eq!(plan.tmp, "/run/kata-containers/x/f.tmp");
    // first chunk: 4 of 8 bytes staged
    assert!(!copy_complete(4, 8));
    // second chunk: all 8 bytes staged, commit
    assert!(copy_complete(8, 8));
}

#[test]
fn copy_outside_base_is_refused() {
    assert!(matches!(copy_file_plan("/etc/passwd"), Err(AgentError::InvalidArgument)));
    assert!(matches!(copy_file_plan("/run/kata-containersX/f"), Err(AgentError::InvalidArgument)));
    assert!(matches!(copy_file_plan("/run/kata"), Err(AgentError::InvalidArgument)));
    assert!(matches!(copy_file_plan("/run/kata-containers/x/"), Err(AgentError::InvalidArgument)));
    assert!(matches!(copy_file_plan(""), Err(AgentError::InvalidArgument)));
}

#[test]
fn copy_to_base_level_file() {
    let plan = copy_file_plan("/run/kata-containers/f.txt").unwrap();
    assert_eq!(plan.dir, "/run/kata-containers");
    assert_eq!(plan.tmp, "/run/kata-containers/f.txt.tmp");
}
