//! What the stdio requests report for each outcome of the underlying read
//! or write, and the window size handed to a terminal.
use vstd::prelude::*;
use crate::error::AgentError;

verus! {

/// `EAGAIN` on Linux.
pub const EAGAIN: i32 = 11;

/// The length reported for a write of `requested` bytes: what the kernel
/// took (never more than asked), zero when the descriptor would block, and
/// an I/O error otherwise. A short write is reported as such; the caller
/// sends the rest.
pub open spec fn spec_write_outcome(requested: usize, res: Result<usize, i32>) -> Result<u32, AgentError> {
    match res {
        Ok(n) => Ok((if n < requested { n } else { requested }) as u32),
        Err(e) => if e == EAGAIN {
            Ok(0)
        } else {
            Err(AgentError::Io)
        },
    }
}

pub fn write_outcome(requested: usize, res: Result<usize, i32>) -> (r: Result<u32, AgentError>)
    ensures
        r == spec_write_outcome(requested, res),
{
    match res {
        Ok(n) => {
            let l = if n < requested { n } else { requested };
            Ok(l as u32)
        },
        Err(e) => if e == EAGAIN {
            Ok(0)
        } else {
            Err(AgentError::Io)
        },
    }
}

/// What a read reports: the bytes read; nothing read means the peer has
/// closed; a read that would block reports no bytes; any other failure is
/// an I/O error.
pub fn read_outcome(res: Result<Vec<u8>, i32>) -> (r: Result<Vec<u8>, AgentError>)
    ensures
        res matches Ok(v) ==> (v@.len() == 0 ==> r == Err::<Vec<u8>, AgentError>(AgentError::Eof))
            && (v@.len() > 0 ==> (r matches Ok(w) && w@ == v@)),
        res == Err::<Vec<u8>, i32>(EAGAIN) ==> (r matches Ok(w) && w@.len() == 0),
        res matches Err(e) ==> (e != EAGAIN ==> r == Err::<Vec<u8>, AgentError>(AgentError::Io)),
{
    match res {
        Ok(v) => if v.len() == 0 {
            Err(AgentError::Eof)
        } else {
            Ok(v)
        },
        Err(e) => if e == EAGAIN {
            Ok(Vec::new())
        } else {
            Err(AgentError::Io)
        },
    }
}

/// A terminal window size, as `TIOCSWINSZ` takes it.
#[derive(Clone, Copy, Debug, PartialEq, Eq, Structural)]
pub struct WinSize {
    pub ws_row: u16,
    pub ws_col: u16,
    pub ws_xpixel: u16,
    pub ws_ypixel: u16,
}

/// The window size for a resize request: rows and columns cut to 16 bits,
/// no pixel sizes.
pub fn win_size(row: u32, column: u32) -> (r: WinSize)
    ensures
        r.ws_row == row as u16,
        r.ws_col == column as u16,
        r.ws_xpixel == 0,
        r.ws_ypixel == 0,
{
    WinSize { ws_row: row as u16, ws_col: column as u16, ws_xpixel: 0, ws_ypixel: 0 }
}

/// The result of a removal run with a deadline: what the destroy reported,
/// or a timeout when nothing came back in time.
pub fn removal_outcome(received: Option<Result<(), AgentError>>) -> (r: Result<(), AgentError>)
    ensures
        received is None ==> r == Err::<(), AgentError>(AgentError::Timeout),
        received matches Some(x) ==> r == x,
{
    match received {
        None => Err(AgentError::Timeout),
        Some(x) => x,
    }
}

} // verus!
