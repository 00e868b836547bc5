use kata_agent::namespace::{get_current_thread_ns_path, Namespace, NamespaceType};
use kata_agent::error::AgentError;
use nix::sched::CloneFlags;

#[test]
fn test_namespace_type() {
    let ipc = NamespaceType::IPC;
    assert_eq!("ipc", ipc.get());
    assert_eq!(CloneFlags::CLONE_NEWIPC, CloneFlags::from_bits_truncate(ipc.get_flags()));

    let uts = NamespaceType::UTS;
    assert_eq!("uts", uts.get());
    assert_eq!(CloneFlags::CLONE_NEWUTS, CloneFlags::from_bits_truncate(uts.get_flags()));

    let pid = NamespaceType::PID;
    assert_eq!("pid", pid.get());
    assert_eq!(CloneFlags::CLONE_NEWPID, CloneFlags::from_bits_truncate(pid.get_flags()));
}

#[test]
fn namespace_flags_match_kernel_values() {
    assert_eq!(NamespaceType::IPC.get_flags(), CloneFlags::CLONE_NEWIPC.bits());
    assert_eq!(NamespaceType::UTS.get_flags(), CloneFlags::CLONE_NEWUTS.bits());
    assert_eq!(NamespaceType::PID.get_flags(), CloneFlags::CLONE_NEWPID.bits());
}

#[test]
fn default_namespace_type_is_ipc() {
    assert_eq!(NamespaceType::default(), NamespaceType::IPC);
}

#[test]
fn thread_ns_path_is_formatted() {
    assert_eq!(get_current_thread_ns_path(1234, 1240, "ipc"), "/proc/1234/task/1240/ns/ipc");
    assert_eq!(get_current_thread_ns_path(0, 7, "uts"), "/proc/0/task/7/ns/uts");
    assert_eq!(
        get_current_thread_ns_path(4294967295, 10, "pid"),
        "/proc/4294967295/task/10/ns/pid"
    );
}

#[test]
fn shared_namespaces_are_kept_under_sandbox_ns() {
    let ipc = Namespace::new().as_ipc().plan_setup().unwrap();
    assert_eq!(ipc.path, "/var/run/sandbox-ns/ipc");
    let uts = Namespace::new().as_uts().plan_setup().unwrap();
    assert_eq!(uts.path, "/var/run/sandbox-ns/uts");
}

#[test]
fn namespace_root_dir_can_be_changed() {
    let ns = Namespace::new().as_uts().set_root_dir("/tmp/ns").plan_setup().unwrap();
    assert_eq!(ns.path, "/tmp/ns/uts");
    let ns = Namespace::new().set_root_dir("/tmp/ns/").plan_setup().unwrap();
    assert_eq!(ns.path, "/tmp/ns/ipc");
}

#[test]
fn pid_namespace_setup_is_refused() {
    let mut ns = Namespace::new();
    ns.ns_type = NamespaceType::PID;
    assert!(matches!(ns.plan_setup(), Err(AgentError::InvalidArgument)));
}
