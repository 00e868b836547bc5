//! Persistent shared namespaces: their kinds, and where they are kept.
use vstd::prelude::*;
use crate::error::AgentError;
use crate::text::{decimal, push_char, push_decimal};

verus! {

/// Directory under which shared namespaces are bind-mounted.
pub const PERSISTENT_NS_DIR: &'static str = "/var/run/sandbox-ns";

/// The namespace type names used in OCI specs.
pub const NSTYPEIPC: &'static str = "ipc";
pub const NSTYPEUTS: &'static str = "uts";
pub const NSTYPEPID: &'static str = "pid";

/// `CLONE_NEWIPC`, `CLONE_NEWUTS` and `CLONE_NEWPID` from `<sched.h>`.
pub const CLONE_NEWIPC: i32 = 0x0800_0000;
pub const CLONE_NEWUTS: i32 = 0x0400_0000;
pub const CLONE_NEWPID: i32 = 0x2000_0000;

/// The kind of a namespace.
#[derive(Clone, Copy, Debug, PartialEq, Eq, Structural)]
pub enum NamespaceType {
    IPC,
    UTS,
    PID,
}

pub open spec fn ipc_name() -> Seq<char> {
    seq!['i', 'p', 'c']
}

pub open spec fn uts_name() -> Seq<char> {
    seq!['u', 't', 's']
}

pub open spec fn pid_name() -> Seq<char> {
    seq!['p', 'i', 'd']
}

impl NamespaceType {
    /// The name of the kind, as it appears under `/proc/<pid>/ns/`.
    pub open spec fn name(self) -> Seq<char> {
        match self {
            NamespaceType::IPC => ipc_name(),
            NamespaceType::UTS => uts_name(),
            NamespaceType::PID => pid_name(),
        }
    }

    /// The `unshare` flag that creates a namespace of this kind.
    pub open spec fn flags(self) -> i32 {
        match self {
            NamespaceType::IPC => CLONE_NEWIPC,
            NamespaceType::UTS => CLONE_NEWUTS,
            NamespaceType::PID => CLONE_NEWPID,
        }
    }

    /// Get the string representation of the namespace type.
    pub fn get(&self) -> (r: String)
        ensures
            r@ == self.name(),
    {
        proof {
            reveal_strlit("ipc");
            reveal_strlit("uts");
            reveal_strlit("pid");
        }
        match *self {
            NamespaceType::IPC => String::from_str("ipc"),
            NamespaceType::UTS => String::from_str("uts"),
            NamespaceType::PID => String::from_str("pid"),
        }
    }

    /// Get the clone flag associated with the namespace type.
    pub fn get_flags(&self) -> (r: i32)
        ensures
            r == self.flags(),
    {
        match *self {
            NamespaceType::IPC => CLONE_NEWIPC,
            NamespaceType::UTS => CLONE_NEWUTS,
            NamespaceType::PID => CLONE_NEWPID,
        }
    }
}

impl Default for NamespaceType {
    fn default() -> (r: NamespaceType)
        ensures
            r == NamespaceType::IPC,
    {
        NamespaceType::IPC
    }
}

/// `dir` joined with `name` the way a path is extended by one component.
pub open spec fn join_path(dir: Seq<char>, name: Seq<char>) -> Seq<char> {
    if dir.len() == 0 {
        name
    } else if dir.last() == '/' {
        dir + name
    } else {
        dir.push('/') + name
    }
}

/// A namespace that can be shared by several containers.
#[derive(Debug)]
pub struct Namespace {
    /// Where the namespace is kept once set up; empty before.
    pub path: String,
    pub persistent_ns_dir: String,
    pub ns_type: NamespaceType,
}

impl Namespace {
    /// An IPC namespace to be kept under the default directory.
    pub fn new() -> (r: Namespace)
        ensures
            r.path@.len() == 0,
            r.persistent_ns_dir@ == PERSISTENT_NS_DIR@,
            r.ns_type == NamespaceType::IPC,
    {
        Namespace {
            path: String::new(),
            persistent_ns_dir: String::from_str(PERSISTENT_NS_DIR),
            ns_type: NamespaceType::IPC,
        }
    }

    pub fn as_ipc(self) -> (r: Namespace)
        ensures
            r.ns_type == NamespaceType::IPC,
            r.path == self.path,
            r.persistent_ns_dir == self.persistent_ns_dir,
    {
        let mut s = self;
        s.ns_type = NamespaceType::IPC;
        s
    }

    pub fn as_uts(self) -> (r: Namespace)
        ensures
            r.ns_type == NamespaceType::UTS,
            r.path == self.path,
            r.persistent_ns_dir == self.persistent_ns_dir,
    {
        let mut s = self;
        s.ns_type = NamespaceType::UTS;
        s
    }

    pub fn set_root_dir(self, dir: &str) -> (r: Namespace)
        ensures
            r.persistent_ns_dir@ == dir@,
            r.path == self.path,
            r.ns_type == self.ns_type,
    {
        let mut s = self;
        s.persistent_ns_dir = String::from_str(dir);
        s
    }

    /// The file that the namespace will be bind-mounted onto.
    pub open spec fn target(self) -> Seq<char> {
        join_path(self.persistent_ns_dir@, self.ns_type.name())
    }

    /// Fixes where the namespace will be kept: `<dir>/<type>`. A PID
    /// namespace cannot be persisted by a bind mount and is refused.
    pub fn plan_setup(self) -> (r: Result<Namespace, AgentError>)
        ensures
            self.ns_type == NamespaceType::PID ==> r == Err::<Namespace, AgentError>(
                AgentError::InvalidArgument,
            ),
            self.ns_type != NamespaceType::PID ==> (r matches Ok(n) && n.path@ == self.target()
                && n.persistent_ns_dir == self.persistent_ns_dir && n.ns_type == self.ns_type),
    {
        if self.ns_type == NamespaceType::PID {
            return Err(AgentError::InvalidArgument);
        }
        let name = self.ns_type.get();
        let mut s = self;
        let dir_len = s.persistent_ns_dir.as_str().unicode_len();
        let mut path = String::from_str(s.persistent_ns_dir.as_str());
        if dir_len > 0 && s.persistent_ns_dir.as_str().get_char(dir_len - 1) != '/' {
            push_char(&mut path, '/');
        }
        path.append(name.as_str());
        proof {
            assert(path@ =~= join_path(s.persistent_ns_dir@, s.ns_type.name()));
        }
        s.path = path;
        Ok(s)
    }
}

/// `/proc/<pid>/task/<tid>/ns/<ns_type>` as characters.
pub open spec fn thread_ns_path(pid: nat, tid: nat, ns_type: Seq<char>) -> Seq<char> {
    seq!['/', 'p', 'r', 'o', 'c', '/'] + decimal(pid) + seq!['/', 't', 'a', 's', 'k', '/']
        + decimal(tid) + seq!['/', 'n', 's', '/'] + ns_type
}

/// The path of the namespace of kind `ns_type` of thread `tid` in process `pid`.
pub fn get_current_thread_ns_path(pid: u32, tid: u32, ns_type: &str) -> (r: String)
    ensures
        r@ == thread_ns_path(pid as nat, tid as nat, ns_type@),
{
    proof {
        reveal_strlit("/proc/");
        reveal_strlit("/task/");
        reveal_strlit("/ns/");
    }
    let mut s = String::from_str("/proc/");
    push_decimal(&mut s, pid);
    s.append("/task/");
    push_decimal(&mut s, tid);
    s.append("/ns/");
    s.append(ns_type);
    proof {
        assert(s@ =~= thread_ns_path(pid as nat, tid as nat, ns_type@));
    }
    s
}

} // verus!
