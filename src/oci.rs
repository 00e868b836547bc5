//! The parts of an OCI runtime spec that the agent reads or rewrites.
use vstd::prelude::*;
use crate::error::AgentError;
use crate::namespace::{NSTYPEIPC, NSTYPEPID, NSTYPEUTS, ipc_name, pid_name, uts_name};
use crate::sandbox::Sandbox;

verus! {

/// A namespace entry: its type name, and the path of an existing namespace
/// to join (empty for a fresh one).
pub struct LinuxNamespace {
    pub typ: String,
    pub path: String,
}

pub ghost struct NamespaceView {
    pub typ: Seq<char>,
    pub path: Seq<char>,
}

impl View for LinuxNamespace {
    type V = NamespaceView;

    open spec fn view(&self) -> NamespaceView {
        NamespaceView { typ: self.typ@, path: self.path@ }
    }
}

pub struct Linux {
    pub namespaces: Vec<LinuxNamespace>,
}

/// The process an OCI spec runs.
pub struct OciProcess {
    pub args: Vec<String>,
    pub terminal: bool,
}

pub struct OciSpec {
    pub process: Option<OciProcess>,
    /// Path of the root filesystem.
    pub root: Option<String>,
    pub linux: Option<Linux>,
}

pub open spec fn ns_views(v: Seq<LinuxNamespace>) -> Seq<NamespaceView> {
    v.map_values(|n: LinuxNamespace| n@)
}

/// One entry after rewriting: shared IPC and UTS namespaces are joined at
/// the sandbox's paths; any other entry is kept.
pub open spec fn rewrite_ns(n: NamespaceView, ipc_path: Seq<char>, uts_path: Seq<char>) -> NamespaceView {
    if n.typ == ipc_name() {
        NamespaceView { typ: n.typ, path: ipc_path }
    } else if n.typ == uts_name() {
        NamespaceView { typ: n.typ, path: uts_path }
    } else {
        n
    }
}

pub open spec fn has_pid_ns(ns: Seq<NamespaceView>) -> bool {
    exists|i: int| 0 <= i < ns.len() && #[trigger] ns[i].typ == pid_name()
}

/// The namespace list after rewriting: every entry rewritten, and a fresh
/// PID namespace appended when the list has none and the sandbox shares no
/// PID namespace.
pub open spec fn updated_namespaces(
    ns: Seq<NamespaceView>,
    ipc_path: Seq<char>,
    uts_path: Seq<char>,
    sandbox_pid_ns: bool,
) -> Seq<NamespaceView> {
    let rewritten = ns.map_values(|n: NamespaceView| rewrite_ns(n, ipc_path, uts_path));
    if !has_pid_ns(ns) && !sandbox_pid_ns {
        rewritten.push(NamespaceView { typ: pid_name(), path: Seq::empty() })
    } else {
        rewritten
    }
}

/// Points the spec's shared namespaces at the sandbox's and, unless the
/// sandbox shares a PID namespace, gives the container a fresh one when the
/// spec names none. The paths the host supplied are never kept. A spec
/// without a Linux section is refused.
pub fn update_container_namespaces(sandbox: &Sandbox, spec: &mut OciSpec) -> (r: Result<(), AgentError>)
    ensures
        r is Ok <==> old(spec).linux is Some,
        r is Err ==> r == Err::<(), AgentError>(AgentError::Internal) && final(spec).linux is None,
        final(spec).process == old(spec).process,
        final(spec).root == old(spec).root,
        old(spec).linux matches Some(l) ==> final(spec).linux matches Some(l2) && ns_views(
            l2.namespaces@,
        ) == updated_namespaces(
            ns_views(l.namespaces@),
            sandbox.shared_ipcns.path@,
            sandbox.shared_utsns.path@,
            sandbox.sandbox_pid_ns,
        ),
{
    let mut linux = match spec.linux.take() {
        Some(l) => l,
        None => return Err(AgentError::Internal),
    };
    proof {
        reveal_strlit("pid");
        reveal_strlit("ipc");
        reveal_strlit("uts");
    }
    let pid_key = String::from_str(NSTYPEPID);
    let ipc_key = String::from_str(NSTYPEIPC);
    let uts_key = String::from_str(NSTYPEUTS);
    let ghost ns0 = ns_views(linux.namespaces@);
    let ghost ipc_path = sandbox.shared_ipcns.path@;
    let ghost uts_path = sandbox.shared_utsns.path@;
    let mut pid_ns = false;
    let mut i: usize = 0;
    while i < linux.namespaces.len()
        invariant
            i <= linux.namespaces@.len(),
            linux.namespaces@.len() == ns0.len(),
            pid_key@ == pid_name(),
            ipc_key@ == ipc_name(),
            uts_key@ == uts_name(),
            ipc_path == sandbox.shared_ipcns.path@,
            uts_path == sandbox.shared_utsns.path@,
            ns0 == ns_views(old(spec).linux->Some_0.namespaces@),
            forall|k: int| 0 <= k < i ==> #[trigger] linux.namespaces@[k]@ == rewrite_ns(ns0[k], ipc_path, uts_path),
            forall|k: int| i <= k < ns0.len() ==> #[trigger] linux.namespaces@[k]@ == ns0[k],
            pid_ns <==> exists|k: int| 0 <= k < i && #[trigger] ns0[k].typ == pid_name(),
        decreases ns0.len() - i,
    {
        let ghost before = linux.namespaces@[i as int]@;
        proof {
            assert(before == ns0[i as int]);
            assert(pid_name() != ipc_name()) by {
                assert(pid_name()[0] != ipc_name()[0]);
            }
            assert(pid_name() != uts_name()) by {
                assert(pid_name()[0] != uts_name()[0]);
            }
        }
        if linux.namespaces[i].typ == pid_key {
            pid_ns = true;
        } else if linux.namespaces[i].typ == ipc_key {
            let p = sandbox.shared_ipcns.path.clone();
            linux.namespaces[i].path = p;
        } else if linux.namespaces[i].typ == uts_key {
            let p = sandbox.shared_utsns.path.clone();
            linux.namespaces[i].path = p;
        }
        proof {
            assert(linux.namespaces@[i as int]@ == rewrite_ns(ns0[i as int], ipc_path, uts_path));
        }
        i = i + 1;
    }
    let ghost rewritten = ns0.map_values(|n: NamespaceView| rewrite_ns(n, ipc_path, uts_path));
    proof {
        assert(ns_views(linux.namespaces@) =~= rewritten);
        assert(pid_ns == has_pid_ns(ns0));
    }
    if !pid_ns && !sandbox.sandbox_pid_ns {
        linux.namespaces.push(LinuxNamespace { typ: pid_key, path: String::new() });
        proof {
            assert(ns_views(linux.namespaces@) =~= rewritten.push(
                NamespaceView { typ: pid_name(), path: Seq::empty() },
            ));
        }
    }
    spec.linux = Some(linux);
    Ok(())
}

/// Readies a spec for container creation: a spec without a process is
/// refused, then its namespaces are rewritten for the sandbox.
pub fn prepare_container_spec(sandbox: &Sandbox, spec: &mut OciSpec) -> (r: Result<(), AgentError>)
    ensures
        old(spec).process is None ==> r == Err::<(), AgentError>(AgentError::InvalidArgument)
            && *final(spec) == *old(spec),
        old(spec).process is Some ==> {
            &&& r is Ok <==> old(spec).linux is Some
            &&& r is Err ==> r == Err::<(), AgentError>(AgentError::Internal)
            &&& final(spec).process == old(spec).process
            &&& final(spec).root == old(spec).root
            &&& old(spec).linux matches Some(l) ==> final(spec).linux matches Some(l2) && ns_views(
                l2.namespaces@,
            ) == updated_namespaces(
                ns_views(l.namespaces@),
                sandbox.shared_ipcns.path@,
                sandbox.shared_utsns.path@,
                sandbox.sandbox_pid_ns,
            )
        },
{
    if spec.process.is_none() {
        return Err(AgentError::InvalidArgument);
    }
    update_container_namespaces(sandbox, spec)
}

/// The file the spec is saved to: `config.json` in the bundle directory.
pub open spec fn config_path_of(bundle: Seq<char>) -> Seq<char> {
    bundle + seq!['/', 'c', 'o', 'n', 'f', 'i', 'g', '.', 'j', 's', 'o', 'n']
}

/// The bundle directory is the parent of the (resolved) root filesystem;
/// hands back it and the path of its `config.json`. A root with no parent
/// is an internal error, as every failure of container creation after the
/// spec check is.
pub fn bundle_paths(rootfs: &str) -> (r: Result<(String, String), AgentError>)
    ensures
        r is Ok <==> exists|k: int| 0 < k < rootfs@.len() && rootfs@[k] == '/',
        r is Err ==> r == Err::<(String, String), AgentError>(AgentError::Internal),
        r matches Ok((b, c)) ==> exists|k: int|
            0 < k < rootfs@.len() && rootfs@[k] == '/' && (forall|j: int| k < j < rootfs@.len() ==> rootfs@[j] != '/')
                && b@ == rootfs@.subrange(0, k) && c@ == config_path_of(b@),
{
    let n = rootfs.unicode_len();
    if n < 2 {
        return Err(AgentError::Internal);
    }
    let mut k: usize = n - 1;
    while k > 0 && rootfs.get_char(k) != '/'
        invariant
            0 <= k < n,
            n == rootfs@.len(),
            forall|j: int| k < j < n ==> rootfs@[j] != '/',
        decreases k,
    {
        k = k - 1;
    }
    if k == 0 {
        return Err(AgentError::Internal);
    }
    proof {
        reveal_strlit("/config.json");
        assert("/config.json"@ =~= seq!['/', 'c', 'o', 'n', 'f', 'i', 'g', '.', 'j', 's', 'o', 'n']);
    }
    let b = String::from_str(rootfs.substring_char(0, k));
    let mut c = String::from_str(b.as_str());
    c.append("/config.json");
    Ok((b, c))
}

/// Rewriting a namespace list a second time changes nothing.
pub proof fn lemma_update_namespaces_idempotent(
    ns: Seq<NamespaceView>,
    ipc_path: Seq<char>,
    uts_path: Seq<char>,
    sandbox_pid_ns: bool,
)
    ensures
        updated_namespaces(
            updated_namespaces(ns, ipc_path, uts_path, sandbox_pid_ns),
            ipc_path,
            uts_path,
            sandbox_pid_ns,
        ) == updated_namespaces(ns, ipc_path, uts_path, sandbox_pid_ns),
{
    let once = updated_namespaces(ns, ipc_path, uts_path, sandbox_pid_ns);
    let rewritten = ns.map_values(|n: NamespaceView| rewrite_ns(n, ipc_path, uts_path));
    let again = once.map_values(|n: NamespaceView| rewrite_ns(n, ipc_path, uts_path));
    assert(ipc_name() != uts_name()) by {
        assert(ipc_name()[0] != uts_name()[0]);
    }
    assert(again =~= once);
    if !has_pid_ns(ns) && !sandbox_pid_ns {
        assert(once[once.len() - 1].typ == pid_name());
        assert(has_pid_ns(once));
    } else if has_pid_ns(ns) {
        let k = choose|k: int| 0 <= k < ns.len() && #[trigger] ns[k].typ == pid_name();
        assert(pid_name() != ipc_name()) by {
            assert(pid_name()[0] != ipc_name()[0]);
        }
        assert(pid_name() != uts_name()) by {
            assert(pid_name()[0] != uts_name()[0]);
        }
        assert(once[k].typ == pid_name());
        assert(has_pid_ns(once));
    }
}

} // verus!
