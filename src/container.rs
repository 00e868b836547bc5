//! A container as the agent tracks it: its identity, lifecycle state and
//! process table.
use vstd::prelude::*;
use crate::error::AgentError;
use crate::process::Process;

verus! {

/// Root under which every container's bundle directory lives.
pub const CONTAINER_BASE: &'static str = "/run/kata-containers";

/// Lifecycle of a container.
#[derive(Clone, Copy, Debug, PartialEq, Eq, Structural)]
pub enum ContainerState {
    Created,
    Running,
    Stopped,
}

/// `/run/kata-containers/<id>` as characters.
pub open spec fn base_dir_of(id: Seq<char>) -> Seq<char> {
    seq!['/', 'r', 'u', 'n', '/', 'k', 'a', 't', 'a', '-', 'c', 'o', 'n', 't', 'a', 'i', 'n', 'e',
        'r', 's', '/'] + id
}

pub struct Container {
    pub id: String,
    /// Pid of the first process; fixed once the container is created.
    pub init_process_pid: i32,
    pub processes: Vec<Process>,
    pub state: ContainerState,
}

impl Container {
    /// Pids and exec ids are unique in the table, and a process marked as
    /// init is the one under `init_process_pid`.
    pub open spec fn wf(self) -> bool {
        &&& forall|j: int, k: int|
            0 <= j < self.processes@.len() && 0 <= k < self.processes@.len() && j != k
                ==> #[trigger] self.processes@[j].pid != #[trigger] self.processes@[k].pid
                && self.processes@[j].exec_id@ != self.processes@[k].exec_id@
        &&& forall|j: int|
            0 <= j < self.processes@.len() && #[trigger] self.processes@[j].init
                ==> self.processes@[j].pid == self.init_process_pid
    }

    /// Entry `j` is the process that `eid` names: the init process for an
    /// empty `eid`, else the process with that exec id.
    pub open spec fn selects(self, eid: Seq<char>, j: int) -> bool {
        &&& 0 <= j < self.processes@.len()
        &&& if eid.len() == 0 {
            self.processes@[j].pid == self.init_process_pid
        } else {
            self.processes@[j].exec_id@ == eid
        }
    }

    pub open spec fn has_process(self, eid: Seq<char>) -> bool {
        exists|j: int| self.selects(eid, j)
    }

    pub open spec fn has_pid(self, pid: i32) -> bool {
        exists|j: int| 0 <= j < self.processes@.len() && #[trigger] self.processes@[j].pid == pid
    }

    /// A container whose init process has been started but whose command
    /// has not yet been run.
    pub fn new(id: &str, init: Process) -> (r: Container)
        requires
            init.init,
        ensures
            r.id@ == id@,
            r.init_process_pid == init.pid,
            r.processes@ == seq![init],
            r.state == ContainerState::Created,
            r.wf(),
    {
        let pid = init.pid;
        let mut processes: Vec<Process> = Vec::new();
        processes.push(init);
        Container { id: String::from_str(id), init_process_pid: pid, processes, state: ContainerState::Created }
    }

    /// The bundle directory of this container.
    pub fn base_dir(&self) -> (r: String)
        ensures
            r@ == base_dir_of(self.id@),
    {
        proof {
            reveal_strlit("/run/kata-containers");
            reveal_strlit("/");
        }
        let mut s = String::from_str(CONTAINER_BASE);
        s.append("/");
        s.append(self.id.as_str());
        proof {
            assert(s@ =~= base_dir_of(self.id@));
        }
        s
    }

    /// The index of the process with this pid.
    pub fn find_pid(&self, pid: i32) -> (r: Option<usize>)
        ensures
            r matches Some(j) ==> j < self.processes@.len() && self.processes@[j as int].pid == pid,
            r is None ==> !self.has_pid(pid),
    {
        let mut j: usize = 0;
        while j < self.processes.len()
            invariant
                j <= self.processes@.len(),
                forall|k: int| 0 <= k < j ==> self.processes@[k].pid != pid,
            decreases self.processes@.len() - j,
        {
            if self.processes[j].pid == pid {
                return Some(j);
            }
            j = j + 1;
        }
        None
    }

    /// The index of the process that `eid` names (see `selects`).
    pub fn get_process(&self, eid: &str) -> (r: Option<usize>)
        ensures
            r matches Some(j) ==> self.selects(eid@, j as int),
            r is None ==> !self.has_process(eid@),
    {
        if eid.is_empty() {
            let r = self.find_pid(self.init_process_pid);
            proof {
                if r is None {
                    assert forall|j: int| !self.selects(eid@, j) by {
                        if self.selects(eid@, j) {
                            assert(self.processes@[j].pid == self.init_process_pid);
                        }
                    }
                }
            }
            return r;
        }
        let key = String::from_str(eid);
        let mut j: usize = 0;
        while j < self.processes.len()
            invariant
                j <= self.processes@.len(),
                key@ == eid@,
                eid@.len() != 0,
                forall|k: int| 0 <= k < j ==> self.processes@[k].exec_id@ != eid@,
            decreases self.processes@.len() - j,
        {
            if self.processes[j].exec_id == key {
                return Some(j);
            }
            j = j + 1;
        }
        None
    }

    /// The pids of the container's processes, in table order.
    pub fn pids(&self) -> (r: Vec<i32>)
        ensures
            r@.len() == self.processes@.len(),
            forall|j: int| 0 <= j < r@.len() ==> r@[j] == #[trigger] self.processes@[j].pid,
    {
        let mut r: Vec<i32> = Vec::new();
        let mut j: usize = 0;
        while j < self.processes.len()
            invariant
                j <= self.processes@.len(),
                r@.len() == j,
                forall|k: int| 0 <= k < j ==> r@[k] == #[trigger] self.processes@[k].pid,
            decreases self.processes@.len() - j,
        {
            r.push(self.processes[j].pid);
            j = j + 1;
        }
        r
    }

    /// Runs the command of the init process: a created container starts
    /// running; any other state is an error.
    pub fn exec(&mut self) -> (r: Result<(), AgentError>)
        ensures
            old(self).state == ContainerState::Created ==> r is Ok && final(self).state
                == ContainerState::Running,
            old(self).state != ContainerState::Created ==> r == Err::<(), AgentError>(
                AgentError::Internal,
            ) && final(self).state == old(self).state,
            final(self).id == old(self).id,
            final(self).init_process_pid == old(self).init_process_pid,
            final(self).processes == old(self).processes,
    {
        if self.state == ContainerState::Created {
            self.state = ContainerState::Running;
            Ok(())
        } else {
            Err(AgentError::Internal)
        }
    }

    /// Adds a process started inside the container. A process marked init,
    /// one with an empty exec id, or one whose pid or exec id is taken is
    /// refused.
    pub fn run(&mut self, p: Process) -> (r: Result<(), AgentError>)
        requires
            old(self).wf(),
        ensures
            final(self).wf(),
            final(self).id == old(self).id,
            final(self).init_process_pid == old(self).init_process_pid,
            final(self).state == old(self).state,
            r is Ok <==> !p.init && p.exec_id@.len() != 0 && !old(self).has_pid(p.pid)
                && !old(self).has_process(p.exec_id@),
            r is Ok ==> final(self).processes@ == old(self).processes@.push(p),
            r is Err ==> r == Err::<(), AgentError>(AgentError::InvalidArgument)
                && final(self).processes@ == old(self).processes@,
    {
        if p.init || p.exec_id.as_str().is_empty() {
            return Err(AgentError::InvalidArgument);
        }
        if self.find_pid(p.pid).is_some() {
            return Err(AgentError::InvalidArgument);
        }
        if self.get_process(p.exec_id.as_str()).is_some() {
            return Err(AgentError::InvalidArgument);
        }
        self.processes.push(p);
        proof {
            let ps = self.processes@;
            assert forall|j: int, k: int|
                0 <= j < ps.len() && 0 <= k < ps.len() && j != k implies #[trigger] ps[j].pid
                != #[trigger] ps[k].pid && ps[j].exec_id@ != ps[k].exec_id@ by {
                if j == ps.len() - 1 {
                    assert(old(self).processes@[k] == ps[k]);
                    assert(!old(self).selects(p.exec_id@, k));
                } else if k == ps.len() - 1 {
                    assert(old(self).processes@[j] == ps[j]);
                    assert(!old(self).selects(p.exec_id@, j));
                } else {
                    assert(old(self).processes@[j] == ps[j]);
                    assert(old(self).processes@[k] == ps[k]);
                }
            }
        }
        Ok(())
    }

    /// Marks the container stopped once the runtime has torn it down.
    pub fn destroy(&mut self)
        ensures
            final(self).state == ContainerState::Stopped,
            final(self).id == old(self).id,
            final(self).init_process_pid == old(self).init_process_pid,
            final(self).processes == old(self).processes,
    {
        self.state = ContainerState::Stopped;
    }
}

} // verus!
