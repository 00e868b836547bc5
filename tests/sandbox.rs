use kata_agent::container::{Container, ContainerState};
use kata_agent::error::{AgentError, RpcCode};
use kata_agent::process::Process;
use kata_agent::sandbox::Sandbox;
use kata_agent::storage::StorageRef;

fn init_process(exec_id: &str, pid: i32) -> Process {
    Process::new(exec_id, pid, true)
}

fn sandbox_with(id: &str, pid: i32, mounts: Vec<String>) -> Sandbox {
    let mut s = Sandbox::new();
    let c = Container::new(id, init_process("init", pid));
    s.add_container(c, mounts).unwrap();
    s
}

fn refcount(s: &Sandbox, mp: &str) -> Option<u32> {
    s.storages.iter().find(|r: &&StorageRef| r.mount_point == mp).map(|r| r.refcount)
}

#[test]
fn create_start_wait_reports_exit_status() {
    let mut s = sandbox_with("c1", 100, vec![]);
    s.start_container("c1").unwrap();
    assert_eq!(s.containers[0].state, ContainerState::Running);
    assert_eq!(s.record_exit(100, 0), Some((0, 0)));
    let (pipe, pid) = s.wait_target("c1", "").unwrap();
    assert_eq!(pipe, None);
    assert_eq!(pid, 100);
    let (_, _, w) = s.finish_wait("c1", pid).unwrap();
    assert_eq!(w.status, 0);
    assert!(w.fds.is_empty());
}

#[test]
fn recorded_exit_code_is_reported_by_wait() {
    let mut s = sandbox_with("c1", 100, vec![]);
    s.exec_process("c1", Process::new("e1", 101, false)).unwrap();
    assert_eq!(s.record_exit(101, 3), Some((0, 1)));
    assert_eq!(s.containers[0].processes[0].exit_code, 0);
    assert_eq!(s.record_exit(555, 1), None);
    let (_, pid) = s.wait_target("c1", "e1").unwrap();
    let (_, _, w) = s.finish_wait("c1", pid).unwrap();
    assert_eq!(w.status, 3);
    assert_eq!(s.containers[0].pids(), vec![100]);
}

#[test]
fn start_twice_is_refused() {
    let mut s = sandbox_with("c1", 100, vec![]);
    assert!(s.start_container("c1").is_ok());
    assert_eq!(s.start_container("c1"), Err(AgentError::Internal));
    assert_eq!(s.start_container("nope"), Err(AgentError::NotFound));
}

#[test]
fn wait_closes_fds_in_order_and_second_wait_fails() {
    let mut s = sandbox_with("c1", 100, vec![]);
    {
        let p = &mut s.containers[0].processes[0];
        p.parent_stdin = Some(3);
        p.parent_stdout = Some(4);
        p.parent_stderr = Some(5);
        p.term_master = Some(6);
        p.exit_pipe_r = Some(7);
        p.exit_code = 42;
    }
    let (pipe, pid) = s.wait_target("c1", "init").unwrap();
    assert_eq!(pipe, Some(7));
    let (_, _, w) = s.finish_wait("c1", pid).unwrap();
    assert_eq!(w.status, 42);
    assert_eq!(w.fds, vec![3, 4, 5, 6, 7]);
    assert!(s.containers[0].processes.is_empty());
    assert!(matches!(s.wait_target("c1", "init"), Err(AgentError::NotFound)));
    assert!(matches!(s.wait_target("c1", ""), Err(AgentError::NotFound)));
    assert!(s.finish_wait("c1", pid).is_none());
}

#[test]
fn take_fds_clears_every_slot() {
    let mut p = Process::new("e1", 7, false);
    p.parent_stdout = Some(10);
    p.exit_pipe_r = Some(11);
    let fds = p.take_fds();
    assert_eq!(fds, vec![10, 11]);
    assert!(p.parent_stdin.is_none() && p.parent_stdout.is_none() && p.parent_stderr.is_none());
    assert!(p.term_master.is_none() && p.exit_pipe_r.is_none());
    assert!(p.take_fds().is_empty());
}

#[test]
fn exec_process_adds_to_table() {
    let mut s = sandbox_with("c1", 100, vec![]);
    assert!(s.exec_process("c1", Process::new("e1", 101, false)).is_ok());
    assert_eq!(s.containers[0].pids(), vec![100, 101]);
    assert_eq!(s.exec_process("c1", Process::new("e1", 102, false)), Err(AgentError::InvalidArgument));
    assert_eq!(s.exec_process("c1", Process::new("e2", 101, false)), Err(AgentError::InvalidArgument));
    assert_eq!(s.exec_process("c1", Process::new("", 103, false)), Err(AgentError::InvalidArgument));
    assert_eq!(s.exec_process("zz", Process::new("e3", 104, false)), Err(AgentError::InvalidArgument));
    assert_eq!(s.container_pids("c1").unwrap(), vec![100, 101]);
    assert_eq!(s.container_pids("zz"), Err(AgentError::NotFound));
}

#[test]
fn tty_resize_without_pty_is_unavailable() {
    let mut s = sandbox_with("c1", 100, vec![]);
    let mut p = Process::new("e1", 101, false);
    p.parent_stdin = Some(20);
    s.exec_process("c1", p).unwrap();
    assert_eq!(s.tty_fd("c1", "e1"), Err(AgentError::Unavailable));
    assert_eq!(AgentError::Unavailable.status(false), RpcCode::Unavailable);
    s.containers[0].processes[1].term_master = Some(21);
    assert_eq!(s.tty_fd("c1", "e1"), Ok(21));
}

#[test]
fn stdio_fd_selection_prefers_pty() {
    let mut s = sandbox_with("c1", 100, vec![]);
    let mut p = Process::new("e1", 101, false);
    p.parent_stdin = Some(20);
    p.parent_stdout = Some(21);
    s.exec_process("c1", p).unwrap();
    assert_eq!(s.input_fd("c1", "e1"), Ok(20));
    assert_eq!(s.output_fd("c1", "e1", true), Ok(21));
    assert_eq!(s.output_fd("c1", "e1", false), Err(AgentError::InvalidArgument));
    assert_eq!(s.input_fd("c1", "missing"), Err(AgentError::NotFound));
    s.containers[0].processes[1].term_master = Some(30);
    assert_eq!(s.input_fd("c1", "e1"), Ok(30));
    assert_eq!(s.output_fd("c1", "e1", false), Ok(30));
}

#[test]
fn write_without_any_input_fd_is_io_error() {
    let s = sandbox_with("c1", 100, vec![]);
    assert_eq!(s.input_fd("c1", ""), Err(AgentError::Io));
    assert_eq!(AgentError::Io.status(true), RpcCode::InvalidArgument);
    assert_eq!(AgentError::Io.status(false), RpcCode::Internal);
}

#[test]
fn close_stdin_takes_pty_then_stdin() {
    let mut s = sandbox_with("c1", 100, vec![]);
    s.containers[0].processes[0].parent_stdin = Some(3);
    s.containers[0].processes[0].term_master = Some(9);
    s.containers[0].processes[0].parent_stdout = Some(4);
    assert_eq!(s.close_stdin("c1", "").unwrap(), vec![9, 3]);
    let p = &s.containers[0].processes[0];
    assert!(p.parent_stdin.is_none() && p.term_master.is_none());
    assert_eq!(p.parent_stdout, Some(4));
    assert!(s.close_stdin("c1", "").unwrap().is_empty());
    assert!(matches!(s.close_stdin("c9", ""), Err(AgentError::InvalidArgument)));
}

#[test]
fn signal_target_reports_init() {
    let mut s = sandbox_with("c2", 200, vec![]);
    s.exec_process("c2", Process::new("e1", 201, false)).unwrap();
    assert_eq!(s.signal_target("c2", ""), Ok((200, true)));
    assert_eq!(s.signal_target("c2", "e1"), Ok((201, false)));
    assert_eq!(s.signal_target("c3", ""), Err(AgentError::NotFound));
}

#[test]
fn remove_container_releases_mounts() {
    let mut s = Sandbox::new();
    let shared = "/run/kata-containers/shared/m".to_string();
    let own = "/run/kata-containers/c1/rootfs".to_string();
    s.add_container(Container::new("c1", init_process("init", 10)), vec![own.clone(), shared.clone()])
        .unwrap();
    s.add_container(Container::new("c2", init_process("init", 20)), vec![shared.clone()]).unwrap();
    assert_eq!(refcount(&s, &shared), Some(2));
    assert_eq!(refcount(&s, &own), Some(1));

    let rm = s.remove_container_entry("c1").unwrap();
    assert_eq!(rm.unmount, vec![own.clone(), shared.clone()]);
    assert_eq!(rm.released, vec![own.clone()]);
    assert!(s.get_container("c1").is_none());
    assert!(s.find_mounts("c1").is_none());
    assert_eq!(refcount(&s, &shared), Some(1));
    assert_eq!(refcount(&s, &own), None);

    let rm = s.remove_container_entry("c2").unwrap();
    assert_eq!(rm.released, vec![shared.clone()]);
    assert!(s.storages.is_empty());
    assert!(matches!(s.remove_container_entry("c2"), Err(AgentError::NotFound)));
}

#[test]
fn remove_with_deadline_times_out_then_succeeds() {
    let mut s = sandbox_with("c3", 300, vec![]);
    assert_eq!(kata_agent::stdio::removal_outcome(None), Err(AgentError::Timeout));
    assert_eq!(AgentError::Timeout.status(false), RpcCode::DeadlineExceeded);
    assert!(s.get_container("c3").is_some());
    assert_eq!(kata_agent::stdio::removal_outcome(Some(Ok(()))), Ok(()));
    assert!(s.remove_container_entry("c3").is_ok());
    assert!(s.get_container("c3").is_none());
}

#[test]
fn duplicate_container_id_is_refused() {
    let mut s = sandbox_with("c1", 100, vec![]);
    let again = Container::new("c1", init_process("init", 101));
    assert_eq!(s.add_container(again, vec![]), Err(AgentError::InvalidArgument));
    assert_eq!(s.containers.len(), 1);
}

#[test]
fn create_then_destroy_sandbox() {
    let mut s = Sandbox::new();
    s.begin_create("sb1", "host");
    s.set_shared_namespaces(
        kata_agent::namespace::Namespace::new().as_ipc(),
        kata_agent::namespace::Namespace::new().as_uts(),
    );
    assert_eq!(s.id, "sb1");
    assert_eq!(s.hostname, "host");
    assert!(s.running);
    assert_eq!(s.id, "sb1");
    assert_eq!(s.hostname, "host");
    s.set_sandbox_mounts(vec!["/run/kata-containers/shared".to_string()]);
    s.add_container(Container::new("c1", init_process("init", 5)), vec![]).unwrap();
    let t = s.destroy();
    assert!(!s.running);
    assert!(s.mounts.is_empty() && s.containers.is_empty() && s.storages.is_empty());
    assert_eq!(t.unmount, vec!["/run/kata-containers/shared".to_string()]);
    assert!(t.signal_shutdown);
    assert!(!s.destroy().signal_shutdown);
}

#[test]
fn failed_create_is_not_left_running() {
    let mut s = Sandbox::new();
    s.begin_create("", "h");
    assert_eq!(s.id, "");
    s.abort_create();
    assert!(!s.running);
    assert_eq!(s.hostname, "h");
}

#[test]
fn container_base_dir() {
    let c = Container::new("abc", init_process("init", 1));
    assert_eq!(c.base_dir(), "/run/kata-containers/abc");
}

#[test]
fn error_status_mapping() {
    assert_eq!(AgentError::InvalidArgument.status(false), RpcCode::InvalidArgument);
    assert_eq!(AgentError::NotFound.status(false), RpcCode::NotFound);
    assert_eq!(AgentError::Precondition.status(false), RpcCode::FailedPrecondition);
    assert_eq!(AgentError::Eof.status(false), RpcCode::Internal);
    assert_eq!(AgentError::Internal.status(true), RpcCode::Internal);
}
