//! Guest details and memory hotplug: what is reported, and what is written
//! to the probe file.
use vstd::prelude::*;
use crate::error::AgentError;
use crate::ps::{digits_value, is_digit, lemma_digits_mono};
use crate::signal::{trim, trim_range};
use crate::text::push_char;

verus! {

/// The outcome of reading a small system file.
pub enum FileRead {
    Content(Vec<u8>),
    /// The file does not exist.
    Missing,
    /// Any other failure.
    Failed,
}

/// The outcome of looking for a file.
#[derive(Clone, Copy, Debug, PartialEq, Eq, Structural)]
pub enum FileState {
    Present,
    Missing,
    Failed,
}

/// A size written as decimal digits, white space around it ignored, that
/// fits in a `u64`.
pub open spec fn block_size_value(text: Seq<u8>) -> Option<u64> {
    let t = trim(text);
    if t.len() > 0 && (forall|i: int| 0 <= i < t.len() ==> is_digit(#[trigger] t[i]))
        && digits_value(t) <= u64::MAX {
        Some(digits_value(t) as u64)
    } else {
        None
    }
}

/// Reads the memory block size from the text of its sysfs file.
pub fn parse_block_size(text: &Vec<u8>) -> (r: Option<u64>)
    ensures
        r == block_size_value(text@),
{
    let (from, to) = trim_range(text, 0);
    proof {
        assert(text@.subrange(0, text@.len() as int) =~= text@);
    }
    let ghost t = text@.subrange(from as int, to as int);
    if from == to {
        return None;
    }
    let mut v: u64 = 0;
    let mut i: usize = from;
    while i < to
        invariant
            from <= i <= to <= text@.len(),
            from < to,
            t == text@.subrange(from as int, to as int),
            t == trim(text@),
            forall|k: int| 0 <= k < i - from ==> is_digit(#[trigger] t[k]),
            v == digits_value(t.subrange(0, i - from)),
        decreases to - i,
    {
        let c = text[i];
        proof {
            assert(t.subrange(0, i - from + 1).drop_last() =~= t.subrange(0, i - from));
            assert(t[i - from] == c);
        }
        if c < 48 || c > 57 {
            return None;
        }
        let d = (c - 48) as u64;
        if v > 1844674407370955161 || (v == 1844674407370955161 && d > 5) {
            proof {
                if forall|k: int| 0 <= k < t.len() ==> is_digit(#[trigger] t[k]) {
                    lemma_digits_mono(t, i - from + 1);
                }
            }
            return None;
        }
        v = v * 10 + d;
        i = i + 1;
    }
    proof {
        assert(t.subrange(0, t.len() as int) =~= t);
    }
    Some(v)
}

/// The memory details reported: the block size when asked for (zero when
/// its file is missing), and whether the hotplug probe file exists when
/// asked for.
pub open spec fn spec_memory_info(
    want_block: bool,
    want_probe: bool,
    block: FileRead,
    probe: FileState,
) -> Result<(u64, bool), AgentError> {
    let size: Result<u64, AgentError> = if !want_block {
        Ok(0)
    } else {
        match block {
            FileRead::Content(t) => if t@.len() == 0 {
                Err(AgentError::Internal)
            } else {
                match block_size_value(t@) {
                    Some(v) => Ok(v),
                    None => Err(AgentError::Internal),
                }
            },
            FileRead::Missing => Ok(0),
            FileRead::Failed => Err(AgentError::Internal),
        }
    };
    match size {
        Err(e) => Err(e),
        Ok(s) => if !want_probe {
            Ok((s, false))
        } else {
            match probe {
                FileState::Present => Ok((s, true)),
                FileState::Missing => Ok((s, false)),
                FileState::Failed => Err(AgentError::Internal),
            }
        },
    }
}

pub fn get_memory_info(want_block: bool, want_probe: bool, block: FileRead, probe: FileState) -> (r:
    Result<(u64, bool), AgentError>)
    ensures
        r == spec_memory_info(want_block, want_probe, block, probe),
{
    let mut size: u64 = 0;
    if want_block {
        match block {
            FileRead::Content(t) => {
                if t.len() == 0 {
                    return Err(AgentError::Internal);
                }
                match parse_block_size(&t) {
                    Some(v) => size = v,
                    None => return Err(AgentError::Internal),
                }
            },
            FileRead::Missing => {},
            FileRead::Failed => return Err(AgentError::Internal),
        }
    }
    let mut plug = false;
    if want_probe {
        match probe {
            FileState::Present => plug = true,
            FileState::Missing => {},
            FileState::Failed => return Err(AgentError::Internal),
        }
    }
    Ok((size, plug))
}

pub open spec fn upper_hex_digit(d: nat) -> char {
    if d < 10 {
        ((48 + d) as u8) as char
    } else {
        ((55 + d) as u8) as char
    }
}

/// The upper-case hexadecimal digits of `n`, most significant first.
pub open spec fn upper_hex(n: nat) -> Seq<char>
    decreases n,
{
    if n < 16 {
        seq![upper_hex_digit(n)]
    } else {
        upper_hex(n / 16).push(upper_hex_digit(n % 16))
    }
}

fn push_upper_hex(s: &mut String, n: u64)
    ensures
        final(s)@ == old(s)@ + upper_hex(n as nat),
    decreases n,
{
    if n >= 16 {
        push_upper_hex(s, n / 16);
    }
    let d: u8 = (n % 16) as u8;
    let c: char = if d < 10 {
        (48u8 + d) as char
    } else {
        (55u8 + d) as char
    };
    push_char(s, c);
    proof {
        assert(final(s)@ =~= old(s)@ + upper_hex(n as nat));
    }
}

/// What is written to the memory hotplug probe file for `addr`: `0x`
/// followed by its upper-case hexadecimal digits.
pub fn probe_text(addr: u64) -> (r: String)
    ensures
        r@ == seq!['0', 'x'] + upper_hex(addr as nat),
{
    proof {
        reveal_strlit("0x");
    }
    let mut s = String::from_str("0x");
    push_upper_hex(&mut s, addr);
    proof {
        assert(s@ =~= seq!['0', 'x'] + upper_hex(addr as nat));
    }
    s
}

/// What the agent reports about itself.
pub struct AgentDetails {
    pub version: String,
    pub init_daemon: bool,
    pub supports_seccomp: bool,
    pub storage_handlers: Vec<String>,
}

/// The agent is the init daemon when it runs as pid 1.
pub fn get_agent_details(version: &str, pid: i32, storage_handlers: Vec<String>) -> (r: AgentDetails)
    ensures
        r.version@ == version@,
        r.init_daemon == (pid == 1),
        !r.supports_seccomp,
        r.storage_handlers@ == storage_handlers@,
{
    AgentDetails {
        version: String::from_str(version),
        init_daemon: pid == 1,
        supports_seccomp: false,
        storage_handlers,
    }
}

} // verus!
