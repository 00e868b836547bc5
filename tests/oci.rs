use kata_agent::error::AgentError;
use kata_agent::oci::{bundle_paths, prepare_container_spec, update_container_namespaces, Linux, LinuxNamespace, OciProcess, OciSpec};
use kata_agent::namespace::Namespace;
use kata_agent::sandbox::Sandbox;

fn ns(t: &str, p: &str) -> LinuxNamespace {
    LinuxNamespace { typ: t.to_string(), path: p.to_string() }
}

fn views(spec: &OciSpec) -> Vec<(String, String)> {
    spec.linux.as_ref().unwrap().namespaces.iter().map(|n| (n.typ.clone(), n.path.clone())).collect()
}

fn sandbox() -> Sandbox {
    let mut s = Sandbox::new();
    let ipc = Namespace::new().as_ipc().plan_setup().unwrap();
    let uts = Namespace::new().as_uts().plan_setup().unwrap();
    s.set_shared_namespaces(ipc, uts);
    s
}

fn spec(list: Vec<LinuxNamespace>) -> OciSpec {
    OciSpec {
        process: Some(OciProcess { args: vec!["/bin/true".to_string()], terminal: false }),
        root: Some("/run/kata-containers/c1/rootfs".to_string()),
        linux: Some(Linux { namespaces: list }),
    }
}

#[test]
fn shared_namespaces_rewritten_and_pid_added() {
    let s = sandbox();
    let mut sp = spec(vec![ns("ipc", "/host/ipc"), ns("uts", "/host/uts"), ns("mount", "")]);
    update_container_namespaces(&s, &mut sp).unwrap();
    assert_eq!(
        views(&sp),
        vec![
            ("ipc".to_string(), "/var/run/sandbox-ns/ipc".to_string()),
            ("uts".to_string(), "/var/run/sandbox-ns/uts".to_string()),
            ("mount".to_string(), "".to_string()),
            ("pid".to_string(), "".to_string()),
        ]
    );
    let once = views(&sp);
    update_container_namespaces(&s, &mut sp).unwrap();
    assert_eq!(views(&sp), once);
}

#[test]
fn existing_pid_namespace_kept() {
    let s = sandbox();
    let mut sp = spec(vec![ns("pid", "/proc/9/ns/pid")]);
    update_container_namespaces(&s, &mut sp).unwrap();
    assert_eq!(views(&sp), vec![("pid".to_string(), "/proc/9/ns/pid".to_string())]);
}

#[test]
fn sandbox_pid_namespace_means_none_added() {
    let mut s = sandbox();
    s.sandbox_pid_ns = true;
    let mut sp = spec(vec![]);
    update_container_namespaces(&s, &mut sp).unwrap();
    assert!(views(&sp).is_empty());
}

#[test]
fn spec_without_linux_or_process_refused() {
    let s = sandbox();
    let mut sp = spec(vec![]);
    sp.linux = None;
    assert_eq!(update_container_namespaces(&s, &mut sp), Err(AgentError::Internal));
    let mut sp = spec(vec![]);
    sp.process = None;
    assert_eq!(prepare_container_spec(&s, &mut sp), Err(AgentError::InvalidArgument));
    let mut sp = spec(vec![]);
    assert_eq!(prepare_container_spec(&s, &mut sp), Ok(()));
    assert_eq!(views(&sp), vec![("pid".to_string(), "".to_string())]);
}

#[test]
fn bundle_is_parent_of_rootfs() {
    let (b, c) = bundle_paths("/run/kata-containers/c1/rootfs").unwrap();
    assert_eq!(b, "/run/kata-containers/c1");
    assert_eq!(c, "/run/kata-containers/c1/config.json");
    assert_eq!(bundle_paths("rootfs"), Err(AgentError::Internal));
}
