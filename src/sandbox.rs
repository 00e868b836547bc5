//! The sandbox: the one registry of containers, their mounts, the shared
//! namespaces and the agent's lifecycle flags.
use vstd::prelude::*;
use crate::container::{Container, ContainerState};
use crate::error::AgentError;
use crate::namespace::Namespace;
use crate::process::{Process, fd_seq};
use crate::storage::{
    StorageRef, acquire_all, acquire_storages, freed_by, release_all, release_storages,
    storages_wf,
};

verus! {

/// The mount points that one container contributed.
pub struct MountList {
    pub id: String,
    pub mounts: Vec<String>,
}

/// What a finished wait hands back: the exit status, and the descriptors
/// that were taken from the process, in the order they are to be closed.
pub struct WaitResult {
    pub status: i32,
    pub fds: Vec<i32>,
}

/// What a container removal leaves to the caller: every mount point of the
/// container is to be unmounted, and the storages that lost their last user
/// are to be removed.
pub struct Removal {
    pub unmount: Vec<String>,
    pub released: Vec<String>,
}

/// What tearing the sandbox down leaves to the caller.
pub struct Teardown {
    /// The sandbox's own mount points, to be unmounted.
    pub unmount: Vec<String>,
    /// Whether the shutdown signal is to be sent now.
    pub signal_shutdown: bool,
}

pub struct Sandbox {
    pub id: String,
    pub hostname: String,
    pub running: bool,
    pub containers: Vec<Container>,
    pub container_mounts: Vec<MountList>,
    pub storages: Vec<StorageRef>,
    pub mounts: Vec<String>,
    pub shared_ipcns: Namespace,
    pub shared_utsns: Namespace,
    /// The sandbox owns a PID namespace that all containers share.
    pub sandbox_pid_ns: bool,
    pub no_pivot_root: bool,
    /// The shutdown signal has not been sent yet.
    pub shutdown_armed: bool,
}

impl Sandbox {
    pub open spec fn container_at(self, id: Seq<char>, i: int) -> bool {
        0 <= i < self.containers@.len() && self.containers@[i].id@ == id
    }

    pub open spec fn has_container(self, id: Seq<char>) -> bool {
        exists|i: int| self.container_at(id, i)
    }

    pub open spec fn mounts_at(self, id: Seq<char>, k: int) -> bool {
        0 <= k < self.container_mounts@.len() && self.container_mounts@[k].id@ == id
    }

    pub open spec fn has_mounts(self, id: Seq<char>) -> bool {
        exists|k: int| self.mounts_at(id, k)
    }

    /// The process that `eid` names in container `cid` exists.
    pub open spec fn has_process(self, cid: Seq<char>, eid: Seq<char>) -> bool {
        exists|i: int| self.container_at(cid, i) && self.containers@[i].has_process(eid)
    }

    /// Container ids are unique, each container is well formed, each mount
    /// list belongs to a container and appears once, and the storage table
    /// is well formed.
    pub open spec fn wf(self) -> bool {
        &&& forall|i: int, j: int|
            0 <= i < self.containers@.len() && 0 <= j < self.containers@.len() && i != j
                ==> #[trigger] self.containers@[i].id@ != #[trigger] self.containers@[j].id@
        &&& forall|i: int| 0 <= i < self.containers@.len() ==> #[trigger] self.containers@[i].wf()
        &&& forall|k: int, l: int|
            0 <= k < self.container_mounts@.len() && 0 <= l < self.container_mounts@.len() && k
                != l ==> #[trigger] self.container_mounts@[k].id@
                != #[trigger] self.container_mounts@[l].id@
        &&& forall|k: int|
            0 <= k < self.container_mounts@.len() ==> self.has_container(
                #[trigger] self.container_mounts@[k].id@,
            )
        &&& storages_wf(self.storages@)
    }

    /// An idle sandbox: not running, nothing registered, shutdown armed.
    pub fn new() -> (r: Sandbox)
        ensures
            r.wf(),
            !r.running,
            r.containers@.len() == 0,
            r.container_mounts@.len() == 0,
            r.storages@.len() == 0,
            r.mounts@.len() == 0,
            r.shutdown_armed,
    {
        Sandbox {
            id: String::new(),
            hostname: String::new(),
            running: false,
            containers: Vec::new(),
            container_mounts: Vec::new(),
            storages: Vec::new(),
            mounts: Vec::new(),
            shared_ipcns: Namespace::new().as_ipc(),
            shared_utsns: Namespace::new().as_uts(),
            sandbox_pid_ns: false,
            no_pivot_root: false,
            shutdown_armed: true,
        }
    }

    /// The index of the container with this id.
    pub fn find_container(&self, id: &str) -> (r: Option<usize>)
        ensures
            r matches Some(i) ==> self.container_at(id@, i as int),
            r is None ==> !self.has_container(id@),
    {
        let key = String::from_str(id);
        let mut i: usize = 0;
        while i < self.containers.len()
            invariant
                i <= self.containers@.len(),
                key@ == id@,
                forall|k: int| 0 <= k < i ==> self.containers@[k].id@ != id@,
            decreases self.containers@.len() - i,
        {
            if self.containers[i].id == key {
                return Some(i);
            }
            i = i + 1;
        }
        None
    }

    /// The container with this id.
    pub fn get_container(&self, id: &str) -> (r: Option<&Container>)
        ensures
            r matches Some(c) ==> exists|i: int| self.container_at(id@, i) && self.containers@[i] == *c,
            r is None ==> !self.has_container(id@),
    {
        match self.find_container(id) {
            Some(i) => Some(&self.containers[i]),
            None => None,
        }
    }

    /// The pids of container `cid`'s processes.
    pub fn container_pids(&self, cid: &str) -> (r: Result<Vec<i32>, AgentError>)
        requires
            self.wf(),
        ensures
            r is Ok <==> self.has_container(cid@),
            r is Err ==> r == Err::<Vec<i32>, AgentError>(AgentError::NotFound),
            r matches Ok(v) ==> {
                let c = self.containers@[self.container_pos(cid@)];
                &&& v@.len() == c.processes@.len()
                &&& forall|j: int| 0 <= j < v@.len() ==> v@[j] == #[trigger] c.processes@[j].pid
            },
    {
        match self.find_container(cid) {
            None => Err(AgentError::NotFound),
            Some(i) => {
                proof {
                    assert(self.container_at(cid@, i as int));
                    let i2 = self.container_pos(cid@);
                    assert(self.container_at(cid@, i2));
                    if i2 != i {
                        assert(self.containers@[i2].id@ != self.containers@[i as int].id@);
                    }
                }
                Ok(self.containers[i].pids())
            },
        }
    }

    /// The positions of the process that `eid` names in container `cid`;
    /// an empty `eid` names the init process.
    pub fn find_process(&self, cid: &str, eid: &str) -> (r: Result<(usize, usize), AgentError>)
        requires
            self.wf(),
        ensures
            r is Ok <==> self.has_process(cid@, eid@),
            r matches Ok((i, j)) ==> self.container_at(cid@, i as int)
                && self.containers@[i as int].selects(eid@, j as int),
            r is Err ==> r == Err::<(usize, usize), AgentError>(AgentError::NotFound),
    {
        match self.find_container(cid) {
            None => Err(AgentError::NotFound),
            Some(i) => match self.containers[i].get_process(eid) {
                Some(j) => Ok((i, j)),
                None => {
                    proof {
                        assert forall|i2: int| self.container_at(cid@, i2) implies !self.containers@[i2].has_process(eid@) by {
                            assert(i2 == i);
                        }
                    }
                    Err(AgentError::NotFound)
                },
            },
        }
    }

    /// The process that `eid` names in container `cid`.
    pub open spec fn process_of(self, cid: Seq<char>, eid: Seq<char>) -> Process
        recommends
            self.has_process(cid, eid),
    {
        self.containers@[self.container_pos(cid)].processes@[self.process_pos(cid, eid)]
    }

    /// The position of that process in its container's table.
    pub open spec fn process_pos(self, cid: Seq<char>, eid: Seq<char>) -> int {
        choose|j: int| self.containers@[self.container_pos(cid)].selects(eid, j)
    }

    proof fn lemma_process_of(self, cid: Seq<char>, eid: Seq<char>, i: int, j: int)
        requires
            self.wf(),
            self.container_at(cid, i),
            self.containers@[i].selects(eid, j),
        ensures
            self.container_pos(cid) == i,
            self.process_pos(cid, eid) == j,
            self.process_of(cid, eid) == self.containers@[i].processes@[j],
    {
        self.lemma_container_pos(cid, i);
        let j2 = self.process_pos(cid, eid);
        assert(self.containers@[i].selects(eid, j));
        let c = self.containers@[i];
        assert(c.wf());
        if j2 != j {
            assert(c.processes@[j2].pid != c.processes@[j].pid);
        }
    }

    /// The lookup a wait starts with: the exit pipe of the process, if it
    /// has one, and its pid.
    pub fn wait_target(&self, cid: &str, eid: &str) -> (r: Result<(Option<i32>, i32), AgentError>)
        requires
            self.wf(),
        ensures
            r is Ok <==> self.has_process(cid@, eid@),
            r matches Ok((pipe, pid)) ==> pipe == self.process_of(cid@, eid@).exit_pipe_r && pid
                == self.process_of(cid@, eid@).pid,
            r is Err ==> r == Err::<(Option<i32>, i32), AgentError>(AgentError::NotFound),
    {
        let (i, j) = self.find_process(cid, eid)?;
        proof {
            self.lemma_process_of(cid@, eid@, i as int, j as int);
        }
        let p = &self.containers[i].processes[j];
        Ok((p.exit_pipe_r, p.pid))
    }

    /// `new` is `self` with process `j` of container `i` removed, and `w`
    /// carries that process's exit code and open descriptors.
    pub open spec fn reaped(self, new: Sandbox, i: int, j: int, w: WaitResult) -> bool {
        let c = self.containers@[i];
        let p = c.processes@[j];
        &&& new.containers@.len() == self.containers@.len()
        &&& forall|k: int| 0 <= k < self.containers@.len() && k != i ==> new.containers@[k] == self.containers@[k]
        &&& new.containers@[i].id == c.id
        &&& new.containers@[i].init_process_pid == c.init_process_pid
        &&& new.containers@[i].state == c.state
        &&& new.containers@[i].processes@ == c.processes@.remove(j)
        &&& w.status == p.exit_code
        &&& w.fds@ == p.open_fds()
        &&& new.container_mounts == self.container_mounts
        &&& new.storages == self.storages
        &&& new.mounts == self.mounts
        &&& new.running == self.running
    }

    /// Takes every descriptor of process `j` of container `i`, reads its
    /// exit code and drops it from the table.
    pub fn reap_process(&mut self, i: usize, j: usize) -> (r: WaitResult)
        requires
            old(self).wf(),
            i < old(self).containers@.len(),
            j < old(self).containers@[i as int].processes@.len(),
        ensures
            final(self).wf(),
            old(self).reaped(*final(self), i as int, j as int, r),
    {
        let ghost c0 = self.containers@[i as int];
        proof {
            assert(c0.wf());
        }
        let mut p = self.containers[i].processes.remove(j);
        let fds = p.take_fds();
        let r = WaitResult { status: p.exit_code, fds };
        proof {
            let ps = self.containers@[i as int].processes@;
            assert(ps == c0.processes@.remove(j as int));
            let c = self.containers@[i as int];
            assert forall|a: int, b: int|
                0 <= a < ps.len() && 0 <= b < ps.len() && a != b implies #[trigger] ps[a].pid
                != #[trigger] ps[b].pid && ps[a].exec_id@ != ps[b].exec_id@ by {
                let a2 = if a < j { a } else { a + 1 };
                let b2 = if b < j { b } else { b + 1 };
                assert(ps[a] == c0.processes@[a2]);
                assert(ps[b] == c0.processes@[b2]);
                assert(c0.processes@[a2].pid != c0.processes@[b2].pid);
            }
            assert forall|a: int| 0 <= a < ps.len() && #[trigger] ps[a].init implies ps[a].pid
                == c.init_process_pid by {
                let a2 = if a < j { a } else { a + 1 };
                assert(ps[a] == c0.processes@[a2]);
            }
            assert(c.wf());
            assert forall|k: int| 0 <= k < self.containers@.len() implies #[trigger] self.containers@[k].wf() by {
                if k != i {
                    assert(self.containers@[k] == old(self).containers@[k]);
                }
            }
            assert forall|k: int| 0 <= k < self.container_mounts@.len() implies self.has_container(
                #[trigger] self.container_mounts@[k].id@,
            ) by {
                let id = self.container_mounts@[k].id@;
                let w = choose|w: int| old(self).container_at(id, w);
                assert(self.container_at(id, w));
            }
        }
        r
    }

    /// The end of a wait: once the exit pipe has been read, the process with
    /// this pid in container `cid` is reaped; its positions come back with
    /// the result. `None` when it is gone.
    pub fn finish_wait(&mut self, cid: &str, pid: i32) -> (r: Option<(usize, usize, WaitResult)>)
        requires
            old(self).wf(),
        ensures
            final(self).wf(),
            r is None ==> *final(self) == *old(self) && !(exists|i: int|
                old(self).container_at(cid@, i) && old(self).containers@[i].has_pid(pid)),
            r matches Some((i, j, w)) ==> old(self).container_at(cid@, i as int) && j
                < old(self).containers@[i as int].processes@.len()
                && old(self).containers@[i as int].processes@[j as int].pid == pid
                && old(self).reaped(*final(self), i as int, j as int, w),
    {
        match self.find_container(cid) {
            None => None,
            Some(i) => match self.containers[i].find_pid(pid) {
                None => {
                    proof {
                        assert forall|i2: int| old(self).container_at(cid@, i2) implies !old(self).containers@[i2].has_pid(pid) by {
                            assert(i2 == i);
                        }
                    }
                    None
                },
                Some(j) => {
                    let w = self.reap_process(i, j);
                    Some((i, j, w))
                },
            },
        }
    }

    /// The position of the container with this id.
    pub open spec fn container_pos(self, id: Seq<char>) -> int {
        choose|i: int| self.container_at(id, i)
    }

    /// The position of the mount list of this container.
    pub open spec fn mounts_pos(self, id: Seq<char>) -> int {
        choose|k: int| self.mounts_at(id, k)
    }

    /// The mount points that container `id` contributed; none when it has
    /// no list.
    pub open spec fn mounts_of(self, id: Seq<char>) -> Seq<String> {
        if self.has_mounts(id) {
            self.container_mounts@[self.mounts_pos(id)].mounts@
        } else {
            Seq::empty()
        }
    }

    proof fn lemma_container_pos(self, id: Seq<char>, i: int)
        requires
            self.wf(),
            self.container_at(id, i),
        ensures
            self.container_pos(id) == i,
            self.has_container(id),
    {
        assert(self.has_container(id));
    }

    proof fn lemma_mounts_pos(self, id: Seq<char>, k: int)
        requires
            self.wf(),
            self.mounts_at(id, k),
        ensures
            self.mounts_pos(id) == k,
            self.has_mounts(id),
    {
        assert(self.has_mounts(id));
    }

    /// `new` differs from `self` only in container `i`, which keeps its id
    /// and stays well formed.
    proof fn lemma_update_container(self, new: Sandbox, i: int)
        requires
            self.wf(),
            0 <= i < self.containers@.len(),
            new.containers@.len() == self.containers@.len(),
            forall|k: int| 0 <= k < self.containers@.len() && k != i ==> new.containers@[k] == self.containers@[k],
            new.containers@[i].id@ == self.containers@[i].id@,
            new.containers@[i].wf(),
            new.container_mounts == self.container_mounts,
            new.storages == self.storages,
        ensures
            new.wf(),
            forall|id: Seq<char>| new.has_container(id) == self.has_container(id),
    {
        assert forall|id: Seq<char>| new.has_container(id) == self.has_container(id) by {
            if new.has_container(id) {
                let w = choose|w: int| new.container_at(id, w);
                assert(self.container_at(id, w));
            }
            if self.has_container(id) {
                let w = choose|w: int| self.container_at(id, w);
                assert(new.container_at(id, w));
            }
        }
        assert forall|a: int| 0 <= a < new.containers@.len() implies #[trigger] new.containers@[a].wf() by {
            if a != i {
                assert(new.containers@[a] == self.containers@[a]);
            }
        }
        assert forall|a: int, b: int|
            0 <= a < new.containers@.len() && 0 <= b < new.containers@.len() && a != b
            implies #[trigger] new.containers@[a].id@ != #[trigger] new.containers@[b].id@ by {
            assert(self.containers@[a].id@ != self.containers@[b].id@);
        }
        assert forall|k: int| 0 <= k < new.container_mounts@.len() implies new.has_container(
            #[trigger] new.container_mounts@[k].id@,
        ) by {
            assert(self.has_container(self.container_mounts@[k].id@));
        }
    }

    /// The sandbox's own fields, all but its containers, are as in `self`.
    pub open spec fn registry_kept(self, new: Sandbox) -> bool {
        &&& new.id == self.id
        &&& new.hostname == self.hostname
        &&& new.running == self.running
        &&& new.container_mounts == self.container_mounts
        &&& new.storages == self.storages
        &&& new.mounts == self.mounts
        &&& new.shared_ipcns == self.shared_ipcns
        &&& new.shared_utsns == self.shared_utsns
        &&& new.sandbox_pid_ns == self.sandbox_pid_ns
        &&& new.no_pivot_root == self.no_pivot_root
        &&& new.shutdown_armed == self.shutdown_armed
    }

    /// Everything but container `i` is as in `self`, and that container
    /// keeps its id and init pid.
    pub open spec fn others_kept(self, new: Sandbox, i: int) -> bool {
        &&& self.registry_kept(new)
        &&& new.containers@.len() == self.containers@.len()
        &&& forall|k: int| 0 <= k < self.containers@.len() && k != i ==> new.containers@[k] == self.containers@[k]
        &&& new.containers@[i].id == self.containers@[i].id
        &&& new.containers@[i].init_process_pid == self.containers@[i].init_process_pid
    }

    /// `new` is `self` with process `j` of container `i` replaced by `q`.
    pub open spec fn process_replaced(self, new: Sandbox, i: int, j: int, q: Process) -> bool {
        &&& self.others_kept(new, i)
        &&& new.containers@[i].state == self.containers@[i].state
        &&& new.containers@[i].processes@ == self.containers@[i].processes@.update(j, q)
    }

    /// When the containers and mount lists are as in `self` and the storage
    /// table is well formed, `new` is well formed.
    proof fn lemma_containers_kept(self, new: Sandbox)
        requires
            self.wf(),
            new.containers == self.containers,
            new.container_mounts == self.container_mounts,
            storages_wf(new.storages@),
        ensures
            new.wf(),
    {
        assert forall|k: int| 0 <= k < new.container_mounts@.len() implies new.has_container(
            #[trigger] new.container_mounts@[k].id@,
        ) by {
            let id2 = new.container_mounts@[k].id@;
            assert(self.has_container(id2));
            let w = choose|w: int| self.container_at(id2, w);
            assert(new.container_at(id2, w));
        }
    }

    /// Records the exit code of the process with this pid, in the first
    /// container that has one; its positions come back. `None` when no
    /// container has such a process.
    pub fn record_exit(&mut self, pid: i32, code: i32) -> (r: Option<(usize, usize)>)
        requires
            old(self).wf(),
        ensures
            final(self).wf(),
            r is None ==> *final(self) == *old(self) && forall|k: int|
                0 <= k < old(self).containers@.len() ==> !(#[trigger] old(self).containers@[k]).has_pid(pid),
            r matches Some((i, j)) ==> {
                let c = old(self).containers@[i as int];
                &&& i < old(self).containers@.len()
                &&& j < c.processes@.len()
                &&& c.processes@[j as int].pid == pid
                &&& forall|k: int| 0 <= k < i ==> !(#[trigger] old(self).containers@[k]).has_pid(pid)
                &&& old(self).process_replaced(
                    *final(self),
                    i as int,
                    j as int,
                    Process { exit_code: code, ..c.processes@[j as int] },
                )
            },
    {
        let mut i: usize = 0;
        while i < self.containers.len()
            invariant
                i <= self.containers@.len(),
                *self == *old(self),
                old(self).wf(),
                forall|k: int| 0 <= k < i ==> !(#[trigger] self.containers@[k]).has_pid(pid),
            decreases self.containers@.len() - i,
        {
            match self.containers[i].find_pid(pid) {
                Some(j) => {
                    proof {
                        assert(old(self).containers@[i as int].wf());
                    }
                    self.containers[i].processes[j].exit_code = code;
                    proof {
                        let c0 = old(self).containers@[i as int];
                        let c = self.containers@[i as int];
                        let ps = c.processes@;
                        assert(ps =~= c0.processes@.update(j as int, Process { exit_code: code, ..c0.processes@[j as int] }));
                        assert forall|a: int, b: int|
                            0 <= a < ps.len() && 0 <= b < ps.len() && a != b implies #[trigger] ps[a].pid
                            != #[trigger] ps[b].pid && ps[a].exec_id@ != ps[b].exec_id@ by {
                            assert(c0.processes@[a].pid != c0.processes@[b].pid);
                        }
                        assert forall|a: int| 0 <= a < ps.len() && #[trigger] ps[a].init implies ps[a].pid
                            == c.init_process_pid by {
                            assert(c0.processes@[a].init);
                        }
                        old(self).lemma_update_container(*self, i as int);
                    }
                    return Some((i, j));
                },
                None => {},
            }
            i = i + 1;
        }
        None
    }

    /// The descriptor that input for the process is written to: its pty
    /// master if it has one, else its stdin pipe.
    pub fn input_fd(&self, cid: &str, eid: &str) -> (r: Result<i32, AgentError>)
        requires
            self.wf(),
        ensures
            !self.has_process(cid@, eid@) ==> r == Err::<i32, AgentError>(AgentError::NotFound),
            self.has_process(cid@, eid@) ==> match self.process_of(cid@, eid@).spec_input_fd() {
                Some(fd) => r == Ok::<i32, AgentError>(fd),
                None => r == Err::<i32, AgentError>(AgentError::Io),
            },
    {
        let (i, j) = self.find_process(cid, eid)?;
        proof {
            self.lemma_process_of(cid@, eid@, i as int, j as int);
        }
        match self.containers[i].processes[j].input_fd() {
            Some(fd) => Ok(fd),
            None => Err(AgentError::Io),
        }
    }

    /// The descriptor that the process's output is read from: its pty
    /// master if it has one, else its stdout or stderr pipe.
    pub fn output_fd(&self, cid: &str, eid: &str, stdout: bool) -> (r: Result<i32, AgentError>)
        requires
            self.wf(),
        ensures
            !self.has_process(cid@, eid@) ==> r == Err::<i32, AgentError>(AgentError::NotFound),
            self.has_process(cid@, eid@) ==> match self.process_of(cid@, eid@).spec_output_fd(
                stdout,
            ) {
                Some(fd) => r == Ok::<i32, AgentError>(fd),
                None => r == Err::<i32, AgentError>(AgentError::InvalidArgument),
            },
    {
        let (i, j) = self.find_process(cid, eid)?;
        proof {
            self.lemma_process_of(cid@, eid@, i as int, j as int);
        }
        match self.containers[i].processes[j].output_fd(stdout) {
            Some(fd) => Ok(fd),
            None => Err(AgentError::InvalidArgument),
        }
    }

    /// The pty master of the process, for a window resize; a process
    /// without a terminal cannot be resized.
    pub fn tty_fd(&self, cid: &str, eid: &str) -> (r: Result<i32, AgentError>)
        requires
            self.wf(),
        ensures
            !self.has_process(cid@, eid@) ==> r == Err::<i32, AgentError>(AgentError::NotFound),
            self.has_process(cid@, eid@) ==> match self.process_of(cid@, eid@).term_master {
                Some(fd) => r == Ok::<i32, AgentError>(fd),
                None => r == Err::<i32, AgentError>(AgentError::Unavailable),
            },
    {
        let (i, j) = self.find_process(cid, eid)?;
        proof {
            self.lemma_process_of(cid@, eid@, i as int, j as int);
        }
        match self.containers[i].processes[j].term_master {
            Some(fd) => Ok(fd),
            None => Err(AgentError::Unavailable),
        }
    }

    /// The pid of the process to signal and whether it is the init process.
    pub fn signal_target(&self, cid: &str, eid: &str) -> (r: Result<(i32, bool), AgentError>)
        requires
            self.wf(),
        ensures
            r is Ok <==> self.has_process(cid@, eid@),
            r matches Ok((pid, init)) ==> pid == self.process_of(cid@, eid@).pid && init
                == self.process_of(cid@, eid@).init,
            r is Err ==> r == Err::<(i32, bool), AgentError>(AgentError::NotFound),
    {
        let (i, j) = self.find_process(cid, eid)?;
        proof {
            self.lemma_process_of(cid@, eid@, i as int, j as int);
        }
        Ok((self.containers[i].processes[j].pid, self.containers[i].processes[j].init))
    }

    /// Closes the process's input: takes its pty master and stdin pipe, in
    /// that order, for the caller to close.
    pub fn close_stdin(&mut self, cid: &str, eid: &str) -> (r: Result<Vec<i32>, AgentError>)
        requires
            old(self).wf(),
        ensures
            final(self).wf(),
            r is Ok <==> old(self).has_process(cid@, eid@),
            r is Err ==> r == Err::<Vec<i32>, AgentError>(AgentError::InvalidArgument)
                && *final(self) == *old(self),
            r matches Ok(fds) ==> {
                let p = old(self).process_of(cid@, eid@);
                &&& fds@ == fd_seq(p.term_master) + fd_seq(p.parent_stdin)
                &&& old(self).process_replaced(
                    *final(self),
                    old(self).container_pos(cid@),
                    old(self).process_pos(cid@, eid@),
                    Process { term_master: None, parent_stdin: None, ..p },
                )
            },
    {
        let (i, j) = match self.find_process(cid, eid) {
            Ok(v) => v,
            Err(_) => return Err(AgentError::InvalidArgument),
        };
        proof {
            old(self).lemma_process_of(cid@, eid@, i as int, j as int);
            assert(old(self).containers@[i as int].wf());
        }
        let fds = self.containers[i].processes[j].take_input_fds();
        proof {
            let c0 = old(self).containers@[i as int];
            let c = self.containers@[i as int];
            let ps = c.processes@;
            assert(ps == c0.processes@.update(j as int, ps[j as int]));
            assert forall|a: int, b: int|
                0 <= a < ps.len() && 0 <= b < ps.len() && a != b implies #[trigger] ps[a].pid
                != #[trigger] ps[b].pid && ps[a].exec_id@ != ps[b].exec_id@ by {
                assert(c0.processes@[a].pid != c0.processes@[b].pid);
            }
            assert forall|a: int| 0 <= a < ps.len() && #[trigger] ps[a].init implies ps[a].pid
                == c.init_process_pid by {
                assert(c0.processes@[a].init);
            }
            old(self).lemma_update_container(*self, i as int);
            assert(ps =~= c0.processes@.update(
                j as int,
                Process { term_master: None, parent_stdin: None, ..c0.processes@[j as int] },
            ));
        }
        Ok(fds)
    }

    /// Runs the command of container `cid`'s init process.
    pub fn start_container(&mut self, cid: &str) -> (r: Result<(), AgentError>)
        requires
            old(self).wf(),
        ensures
            final(self).wf(),
            !old(self).has_container(cid@) ==> r == Err::<(), AgentError>(AgentError::NotFound)
                && *final(self) == *old(self),
            old(self).has_container(cid@) ==> {
                let c = old(self).containers@[old(self).container_pos(cid@)];
                let n = final(self).containers@[old(self).container_pos(cid@)];
                &&& r is Ok <==> c.state == ContainerState::Created
                &&& r is Ok ==> n.state == ContainerState::Running
                &&& r is Err ==> r == Err::<(), AgentError>(AgentError::Internal) && n.state == c.state
                &&& n.processes == c.processes
                &&& old(self).others_kept(*final(self), old(self).container_pos(cid@))
            },
    {
        let i = match self.find_container(cid) {
            Some(i) => i,
            None => return Err(AgentError::NotFound),
        };
        proof {
            old(self).lemma_container_pos(cid@, i as int);
            assert(old(self).containers@[i as int].wf());
        }
        let r = self.containers[i].exec();
        proof {
            assert(self.containers@[i as int].wf());
            old(self).lemma_update_container(*self, i as int);
        }
        r
    }

    /// Adds process `p` to container `cid`.
    pub fn exec_process(&mut self, cid: &str, p: Process) -> (r: Result<(), AgentError>)
        requires
            old(self).wf(),
        ensures
            final(self).wf(),
            !old(self).has_container(cid@) ==> r == Err::<(), AgentError>(AgentError::InvalidArgument)
                && *final(self) == *old(self),
            old(self).has_container(cid@) ==> {
                let c = old(self).containers@[old(self).container_pos(cid@)];
                let n = final(self).containers@[old(self).container_pos(cid@)];
                &&& r is Ok <==> !p.init && p.exec_id@.len() != 0 && !c.has_pid(p.pid)
                    && !c.has_process(p.exec_id@)
                &&& r is Ok ==> n.processes@ == c.processes@.push(p)
                &&& r is Err ==> r == Err::<(), AgentError>(AgentError::InvalidArgument)
                    && n.processes@ == c.processes@
                &&& n.state == c.state
                &&& old(self).others_kept(*final(self), old(self).container_pos(cid@))
            },
    {
        let i = match self.find_container(cid) {
            Some(i) => i,
            None => return Err(AgentError::InvalidArgument),
        };
        proof {
            old(self).lemma_container_pos(cid@, i as int);
            assert(old(self).containers@[i as int].wf());
        }
        let r = self.containers[i].run(p);
        proof {
            old(self).lemma_update_container(*self, i as int);
        }
        r
    }

    /// Registers a started container together with the mount points it
    /// uses, each of which gains a user. An id already registered is
    /// refused.
    pub fn add_container(&mut self, c: Container, mounts: Vec<String>) -> (r: Result<(), AgentError>)
        requires
            old(self).wf(),
            c.wf(),
        ensures
            final(self).wf(),
            r is Ok <==> !old(self).has_container(c.id@),
            r is Err ==> r == Err::<(), AgentError>(AgentError::InvalidArgument)
                && *final(self) == *old(self),
            r is Ok ==> {
                &&& final(self).containers@ == old(self).containers@.push(c)
                &&& final(self).has_container(c.id@)
                &&& final(self).mounts_of(c.id@) == mounts@
                &&& final(self).storages@ == acquire_all(old(self).storages@, mounts@)
            },
    {
        if self.find_container(c.id.as_str()).is_some() {
            return Err(AgentError::InvalidArgument);
        }
        let ghost s0 = *self;
        let id = c.id.clone();
        acquire_storages(&mut self.storages, &mounts);
        self.containers.push(c);
        self.container_mounts.push(MountList { id, mounts });
        proof {
            let n = self.containers@.len() - 1;
            assert(self.container_at(c.id@, n));
            assert forall|a: int, b: int|
                0 <= a < self.containers@.len() && 0 <= b < self.containers@.len() && a != b
                implies #[trigger] self.containers@[a].id@ != #[trigger] self.containers@[b].id@ by {
                if a == n {
                    assert(!s0.container_at(c.id@, b));
                } else if b == n {
                    assert(!s0.container_at(c.id@, a));
                } else {
                    assert(s0.containers@[a].id@ != s0.containers@[b].id@);
                }
            }
            assert forall|a: int| 0 <= a < self.containers@.len() implies #[trigger] self.containers@[a].wf() by {
                if a < n {
                    assert(self.containers@[a] == s0.containers@[a]);
                }
            }
            let m = self.container_mounts@.len() - 1;
            assert forall|k: int| 0 <= k < m implies #[trigger] self.container_mounts@[k].id@ != c.id@ by {
                let id2 = s0.container_mounts@[k].id@;
                assert(s0.has_container(id2));
            }
            assert forall|k: int, l: int|
                0 <= k < self.container_mounts@.len() && 0 <= l < self.container_mounts@.len() && k
                    != l implies #[trigger] self.container_mounts@[k].id@
                != #[trigger] self.container_mounts@[l].id@ by {
                if k < m && l < m {
                    assert(s0.container_mounts@[k].id@ != s0.container_mounts@[l].id@);
                }
            }
            assert forall|k: int| 0 <= k < self.container_mounts@.len() implies self.has_container(
                #[trigger] self.container_mounts@[k].id@,
            ) by {
                if k < m {
                    let id2 = s0.container_mounts@[k].id@;
                    let w = choose|w: int| s0.container_at(id2, w);
                    assert(self.container_at(id2, w));
                }
            }
            self.lemma_mounts_pos(c.id@, m);
        }
        Ok(())
    }

    /// `new` is `self` without container `id` and its mount list; `rm`
    /// hands back every mount point of the container, and the storages
    /// whose last user went with it.
    pub open spec fn removed(self, new: Sandbox, id: Seq<char>, rm: Removal) -> bool {
        &&& new.containers@ == self.containers@.remove(self.container_pos(id))
        &&& !new.has_container(id)
        &&& !new.has_mounts(id)
        &&& rm.unmount@ == self.mounts_of(id)
        &&& new.storages@ == release_all(self.storages@, rm.unmount@)
        &&& rm.released@ == freed_by(self.storages@, rm.unmount@)
        &&& new.mounts == self.mounts
        &&& new.running == self.running
    }

    /// The position of the mount list of container `id`.
    pub fn find_mounts(&self, id: &str) -> (r: Option<usize>)
        ensures
            r matches Some(k) ==> self.mounts_at(id@, k as int),
            r is None ==> !self.has_mounts(id@),
    {
        let key = String::from_str(id);
        let mut k: usize = 0;
        while k < self.container_mounts.len()
            invariant
                k <= self.container_mounts@.len(),
                key@ == id@,
                forall|l: int| 0 <= l < k ==> self.container_mounts@[l].id@ != id@,
            decreases self.container_mounts@.len() - k,
        {
            if self.container_mounts[k].id == key {
                return Some(k);
            }
            k = k + 1;
        }
        None
    }

    /// Drops container `cid` from the registry once the runtime has
    /// destroyed it, with its mount list; each of its mount points loses a
    /// user.
    pub fn remove_container_entry(&mut self, cid: &str) -> (r: Result<Removal, AgentError>)
        requires
            old(self).wf(),
        ensures
            final(self).wf(),
            r is Ok <==> old(self).has_container(cid@),
            r is Err ==> r == Err::<Removal, AgentError>(AgentError::NotFound) && *final(self)
                == *old(self),
            r matches Ok(rm) ==> old(self).removed(*final(self), cid@, rm),
    {
        let i = match self.find_container(cid) {
            Some(i) => i,
            None => return Err(AgentError::NotFound),
        };
        let ghost s0 = *self;
        proof {
            s0.lemma_container_pos(cid@, i as int);
        }
        let unmount = match self.find_mounts(cid) {
            Some(k) => {
                proof {
                    s0.lemma_mounts_pos(cid@, k as int);
                }
                let ml = self.container_mounts.remove(k);
                proof {
                    let cm = self.container_mounts@;
                    assert forall|l: int| 0 <= l < cm.len() implies #[trigger] cm[l].id@ != cid@ by {
                        let l2 = if l < k { l } else { l + 1 };
                        assert(cm[l] == s0.container_mounts@[l2]);
                        assert(s0.container_mounts@[l2].id@ != s0.container_mounts@[k as int].id@);
                    }
                }
                ml.mounts
            },
            None => Vec::new(),
        };
        let released = release_storages(&mut self.storages, &unmount);
        self.containers.remove(i);
        proof {
            let cs = self.containers@;
            let cm = self.container_mounts@;
            assert(cs == s0.containers@.remove(i as int));
            assert forall|a: int| 0 <= a < cs.len() implies #[trigger] cs[a].id@ != cid@ by {
                let a2 = if a < i { a } else { a + 1 };
                assert(cs[a] == s0.containers@[a2]);
                assert(s0.containers@[a2].id@ != s0.containers@[i as int].id@);
            }
            assert forall|a: int, b: int|
                0 <= a < cs.len() && 0 <= b < cs.len() && a != b implies #[trigger] cs[a].id@
                != #[trigger] cs[b].id@ by {
                let a2 = if a < i { a } else { a + 1 };
                let b2 = if b < i { b } else { b + 1 };
                assert(cs[a] == s0.containers@[a2]);
                assert(cs[b] == s0.containers@[b2]);
                assert(s0.containers@[a2].id@ != s0.containers@[b2].id@);
            }
            assert forall|a: int| 0 <= a < cs.len() implies #[trigger] cs[a].wf() by {
                let a2 = if a < i { a } else { a + 1 };
                assert(cs[a] == s0.containers@[a2]);
            }
            if s0.has_mounts(cid@) {
                let k = s0.mounts_pos(cid@);
                assert(s0.mounts_at(cid@, k));
                assert(cm == s0.container_mounts@.remove(k));
                assert forall|l: int, m: int|
                    0 <= l < cm.len() && 0 <= m < cm.len() && l != m implies #[trigger] cm[l].id@
                    != #[trigger] cm[m].id@ by {
                    let l2 = if l < k { l } else { l + 1 };
                    let m2 = if m < k { m } else { m + 1 };
                    assert(cm[l] == s0.container_mounts@[l2]);
                    assert(cm[m] == s0.container_mounts@[m2]);
                    assert(s0.container_mounts@[l2].id@ != s0.container_mounts@[m2].id@);
                }
                assert forall|l: int| 0 <= l < cm.len() implies self.has_container(#[trigger] cm[l].id@) by {
                    let l2 = if l < k { l } else { l + 1 };
                    assert(cm[l] == s0.container_mounts@[l2]);
                    let id2 = cm[l].id@;
                    assert(s0.container_mounts@[l2].id@ != s0.container_mounts@[k].id@);
                    assert(id2 != cid@);
                    assert(s0.has_container(id2));
                    let w = choose|w: int| s0.container_at(id2, w);
                    assert(w != i);
                    let w2 = if w < i { w } else { w - 1 };
                    assert(cs[w2] == s0.containers@[w]);
                    assert(self.container_at(id2, w2));
                }
                assert forall|l: int| !self.mounts_at(cid@, l) by {
                    if 0 <= l < cm.len() {
                        let l2 = if l < k { l } else { l + 1 };
                        assert(cm[l] == s0.container_mounts@[l2]);
                    }
                }
            } else {
                assert(cm == s0.container_mounts@);
                assert forall|l: int| 0 <= l < cm.len() implies self.has_container(#[trigger] cm[l].id@) by {
                    let id2 = cm[l].id@;
                    assert(s0.has_container(id2));
                    assert(!s0.mounts_at(cid@, l));
                    assert(id2 != cid@);
                    let w = choose|w: int| s0.container_at(id2, w);
                    assert(w != i);
                    let w2 = if w < i { w } else { w - 1 };
                    assert(cs[w2] == s0.containers@[w]);
                    assert(self.container_at(id2, w2));
                }
                assert(unmount@ =~= Seq::<String>::empty());
            }
            assert forall|a: int| !self.container_at(cid@, a) by {}
        }
        Ok(Removal { unmount, released })
    }

    /// `new` is `self` set up for a sandbox called `id` (kept as it was when
    /// `id` is empty) with this host name, and running.
    pub open spec fn created(self, new: Sandbox, id: Seq<char>, hostname: Seq<char>) -> bool {
        &&& new.running
        &&& new.hostname@ == hostname
        &&& new.id@ == if id.len() == 0 {
            self.id@
        } else {
            id
        }
        &&& new.containers == self.containers
        &&& new.container_mounts == self.container_mounts
        &&& new.storages == self.storages
        &&& new.mounts == self.mounts
        &&& new.shutdown_armed == self.shutdown_armed
    }

    /// The first step of sandbox creation: names the sandbox and marks it
    /// running.
    pub fn begin_create(&mut self, id: &str, hostname: &str)
        requires
            old(self).wf(),
        ensures
            final(self).wf(),
            old(self).created(*final(self), id@, hostname@),
    {
        self.hostname = String::from_str(hostname);
        self.running = true;
        if !id.is_empty() {
            self.id = String::from_str(id);
        }
        proof {
            old(self).lemma_containers_kept(*self);
        }
    }

    /// Undoes the running flag when a later step of creation fails, so that
    /// no later request sees a half-created sandbox as running.
    pub fn abort_create(&mut self)
        requires
            old(self).wf(),
        ensures
            final(self).wf(),
            !final(self).running,
            final(self).id == old(self).id,
            final(self).hostname == old(self).hostname,
            final(self).containers == old(self).containers,
            final(self).container_mounts == old(self).container_mounts,
            final(self).storages == old(self).storages,
            final(self).mounts == old(self).mounts,
    {
        self.running = false;
        proof {
            old(self).lemma_containers_kept(*self);
        }
    }

    /// Records the sandbox's own mount points, in place of any recorded
    /// before; each gains a user.
    pub fn set_sandbox_mounts(&mut self, mounts: Vec<String>)
        requires
            old(self).wf(),
        ensures
            final(self).wf(),
            final(self).mounts@ == mounts@,
            final(self).id == old(self).id,
            final(self).hostname == old(self).hostname,
            final(self).storages@ == acquire_all(old(self).storages@, mounts@),
            final(self).running == old(self).running,
            final(self).containers == old(self).containers,
            final(self).container_mounts == old(self).container_mounts,
            final(self).shutdown_armed == old(self).shutdown_armed,
    {
        acquire_storages(&mut self.storages, &mounts);
        self.mounts = mounts;
        proof {
            old(self).lemma_containers_kept(*self);
        }
    }

    /// Records the shared IPC and UTS namespaces once they are set up.
    pub fn set_shared_namespaces(&mut self, ipc: Namespace, uts: Namespace)
        requires
            old(self).wf(),
        ensures
            final(self).wf(),
            final(self).shared_ipcns == ipc,
            final(self).shared_utsns == uts,
            final(self).id == old(self).id,
            final(self).hostname == old(self).hostname,
            final(self).running == old(self).running,
            final(self).containers == old(self).containers,
            final(self).container_mounts == old(self).container_mounts,
            final(self).storages == old(self).storages,
            final(self).mounts == old(self).mounts,
            final(self).shutdown_armed == old(self).shutdown_armed,
    {
        self.shared_ipcns = ipc;
        self.shared_utsns = uts;
        proof {
            old(self).lemma_containers_kept(*self);
        }
    }

    /// `new` is the torn-down `self`: nothing registered, not running, the
    /// sandbox's mount points handed back, and the shutdown signal sent at
    /// most once.
    pub open spec fn torn_down(self, new: Sandbox, t: Teardown) -> bool {
        &&& !new.running
        &&& new.containers@.len() == 0
        &&& new.container_mounts@.len() == 0
        &&& new.storages@.len() == 0
        &&& new.mounts@.len() == 0
        &&& t.unmount@ == self.mounts@
        &&& t.signal_shutdown == self.shutdown_armed
        &&& !new.shutdown_armed
    }

    /// Tears the sandbox down once the runtime has destroyed its
    /// containers.
    pub fn destroy(&mut self) -> (t: Teardown)
        requires
            old(self).wf(),
        ensures
            final(self).wf(),
            old(self).torn_down(*final(self), t),
    {
        self.running = false;
        self.containers = Vec::new();
        self.container_mounts = Vec::new();
        self.storages = Vec::new();
        let mut unmount: Vec<String> = Vec::new();
        unmount.append(&mut self.mounts);
        proof {
            assert(unmount@ =~= old(self).mounts@);
        }
        let signal_shutdown = self.shutdown_armed;
        self.shutdown_armed = false;
        Teardown { unmount, signal_shutdown }
    }
}

/// A removed container is gone from the registry together with its mount
/// list, and every mount point it had is handed back to be unmounted.
pub proof fn lemma_remove_container_gone(s: Sandbox, new: Sandbox, id: Seq<char>, rm: Removal)
    requires
        s.wf(),
        s.removed(new, id, rm),
    ensures
        !new.has_container(id),
        !new.has_mounts(id),
        forall|m: String| s.mounts_of(id).contains(m) ==> rm.unmount@.contains(m),
{
}

/// After a wait has reaped a process, a second wait on the same process
/// finds nothing: the lookup fails and no descriptor is left to close.
pub proof fn lemma_wait_twice(s: Sandbox, new: Sandbox, cid: Seq<char>, eid: Seq<char>, i: int, j: int, w: WaitResult)
    requires
        s.wf(),
        new.wf(),
        s.container_at(cid, i),
        s.containers@[i].selects(eid, j),
        s.reaped(new, i, j, w),
    ensures
        !new.has_process(cid, eid),
{
    let c = s.containers@[i];
    let n = new.containers@[i];
    assert(c.wf());
    assert forall|i2: int| new.container_at(cid, i2) implies !new.containers@[i2].has_process(eid) by {
        if i2 != i {
            assert(s.containers@[i2].id@ != s.containers@[i].id@);
        }
        assert forall|j2: int| !n.selects(eid, j2) by {
            if 0 <= j2 < n.processes@.len() {
                let j3 = if j2 < j { j2 } else { j2 + 1 };
                assert(n.processes@[j2] == c.processes@[j3]);
                assert(j3 != j);
                assert(c.processes@[j3].pid != c.processes@[j].pid);
            }
        }
    }
}

/// After a wait, the process's record is gone from its container and every
/// descriptor it held was handed out, once, in closing order.
pub proof fn lemma_wait_drains_fds(s: Sandbox, new: Sandbox, i: int, j: int, w: WaitResult)
    requires
        s.wf(),
        0 <= i < s.containers@.len(),
        0 <= j < s.containers@[i].processes@.len(),
        s.reaped(new, i, j, w),
    ensures
        w.fds@ == s.containers@[i].processes@[j].open_fds(),
        !new.containers@[i].has_pid(s.containers@[i].processes@[j].pid),
{
    let c = s.containers@[i];
    let n = new.containers@[i];
    assert(c.wf());
    assert forall|j2: int| 0 <= j2 < n.processes@.len() implies #[trigger] n.processes@[j2].pid != c.processes@[j].pid by {
        let j3 = if j2 < j { j2 } else { j2 + 1 };
        assert(n.processes@[j2] == c.processes@[j3]);
    }
}

/// Creating a sandbox, recording its mounts and destroying it leaves it
/// not running, with no mounts, and hands every mount it recorded back to
/// be unmounted.
pub proof fn lemma_create_destroy(s0: Sandbox, s1: Sandbox, s2: Sandbox, s3: Sandbox, id: Seq<char>, hostname: Seq<char>, m: Seq<String>, t: Teardown)
    requires
        s0.wf(),
        s0.created(s1, id, hostname),
        s2.mounts@ == m,
        s2.torn_down(s3, t),
    ensures
        !s3.running,
        s3.mounts@.len() == 0,
        s3.storages@.len() == 0,
        t.unmount@ == m,
{
}

} // verus!
