//! A container process as the agent tracks it: identifiers, exit status and
//! the stdio descriptors it owns.
use vstd::prelude::*;

verus! {

/// The descriptor held in a slot, as a sequence of zero or one items.
pub open spec fn fd_seq(fd: Option<i32>) -> Seq<i32> {
    match fd {
        Some(v) => seq![v],
        None => Seq::empty(),
    }
}

/// A process of a container.
pub struct Process {
    /// External identifier; empty for the init process.
    pub exec_id: String,
    pub pid: i32,
    pub init: bool,
    pub parent_stdin: Option<i32>,
    pub parent_stdout: Option<i32>,
    pub parent_stderr: Option<i32>,
    /// Pty master; when set it carries both input and output.
    pub term_master: Option<i32>,
    /// Read end of a pipe whose peer closes when the process exits.
    pub exit_pipe_r: Option<i32>,
    /// Meaningful once the process has been reaped.
    pub exit_code: i32,
}

impl Process {
    /// The open descriptors, in the order in which they are closed.
    pub open spec fn open_fds(self) -> Seq<i32> {
        fd_seq(self.parent_stdin) + fd_seq(self.parent_stdout) + fd_seq(self.parent_stderr)
            + fd_seq(self.term_master) + fd_seq(self.exit_pipe_r)
    }

    /// No descriptor slot holds a value.
    pub open spec fn fds_cleared(self) -> bool {
        &&& self.parent_stdin is None
        &&& self.parent_stdout is None
        &&& self.parent_stderr is None
        &&& self.term_master is None
        &&& self.exit_pipe_r is None
    }

    /// Everything but the descriptor slots is the same in both.
    pub open spec fn same_identity(self, other: Process) -> bool {
        &&& self.exec_id == other.exec_id
        &&& self.pid == other.pid
        &&& self.init == other.init
        &&& self.exit_code == other.exit_code
    }

    /// The descriptor that input is written to: the pty master if any,
    /// else the stdin pipe.
    pub open spec fn spec_input_fd(self) -> Option<i32> {
        if self.term_master is Some {
            self.term_master
        } else {
            self.parent_stdin
        }
    }

    /// The descriptor that output is read from: the pty master if any,
    /// else the stdout or stderr pipe.
    pub open spec fn spec_output_fd(self, stdout: bool) -> Option<i32> {
        if self.term_master is Some {
            self.term_master
        } else if stdout {
            self.parent_stdout
        } else {
            self.parent_stderr
        }
    }

    /// A new process with no descriptors.
    pub fn new(exec_id: &str, pid: i32, init: bool) -> (r: Process)
        ensures
            r.exec_id@ == exec_id@,
            r.pid == pid,
            r.init == init,
            r.exit_code == 0,
            r.fds_cleared(),
    {
        Process {
            exec_id: String::from_str(exec_id),
            pid,
            init,
            parent_stdin: None,
            parent_stdout: None,
            parent_stderr: None,
            term_master: None,
            exit_pipe_r: None,
            exit_code: 0,
        }
    }

    pub fn input_fd(&self) -> (r: Option<i32>)
        ensures
            r == self.spec_input_fd(),
    {
        if self.term_master.is_some() {
            self.term_master
        } else {
            self.parent_stdin
        }
    }

    pub fn output_fd(&self, stdout: bool) -> (r: Option<i32>)
        ensures
            r == self.spec_output_fd(stdout),
    {
        if self.term_master.is_some() {
            self.term_master
        } else if stdout {
            self.parent_stdout
        } else {
            self.parent_stderr
        }
    }

    /// Empties every descriptor slot and hands back what they held, in the
    /// order stdin, stdout, stderr, pty master, exit pipe: the caller closes
    /// them in that order.
    pub fn take_fds(&mut self) -> (r: Vec<i32>)
        ensures
            r@ == old(self).open_fds(),
            final(self).fds_cleared(),
            final(self).same_identity(*old(self)),
    {
        let mut r: Vec<i32> = Vec::new();
        if let Some(fd) = self.parent_stdin.take() {
            r.push(fd);
        }
        if let Some(fd) = self.parent_stdout.take() {
            r.push(fd);
        }
        if let Some(fd) = self.parent_stderr.take() {
            r.push(fd);
        }
        if let Some(fd) = self.term_master.take() {
            r.push(fd);
        }
        if let Some(fd) = self.exit_pipe_r.take() {
            r.push(fd);
        }
        proof {
            assert(r@ =~= old(self).open_fds());
        }
        r
    }

    /// Empties the input slots, pty master first, and hands back what they
    /// held in that order.
    pub fn take_input_fds(&mut self) -> (r: Vec<i32>)
        ensures
            r@ == fd_seq(old(self).term_master) + fd_seq(old(self).parent_stdin),
            final(self).term_master is None,
            final(self).parent_stdin is None,
            final(self).parent_stdout == old(self).parent_stdout,
            final(self).parent_stderr == old(self).parent_stderr,
            final(self).exit_pipe_r == old(self).exit_pipe_r,
            final(self).same_identity(*old(self)),
    {
        let mut r: Vec<i32> = Vec::new();
        if let Some(fd) = self.term_master.take() {
            r.push(fd);
        }
        if let Some(fd) = self.parent_stdin.take() {
            r.push(fd);
        }
        proof {
            assert(r@ =~= fd_seq(old(self).term_master) + fd_seq(old(self).parent_stdin));
        }
        r
    }
}

} // verus!
