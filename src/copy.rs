//! Staging of files copied into the guest in chunks: where the chunks go
//! and when the file is committed.
use vstd::prelude::*;
use crate::container::CONTAINER_BASE;
use crate::error::AgentError;

verus! {

pub open spec fn base_chars() -> Seq<char> {
    seq!['/', 'r', 'u', 'n', '/', 'k', 'a', 't', 'a', '-', 'c', 'o', 'n', 't', 'a', 'i', 'n', 'e',
        'r', 's']
}

pub open spec fn tmp_suffix() -> Seq<char> {
    seq!['.', 't', 'm', 'p']
}

/// `path` is the base directory or lies below it.
pub open spec fn under_base(path: Seq<char>) -> bool {
    let b = base_chars();
    path.len() >= b.len() && path.subrange(0, b.len() as int) == b && (path.len() == b.len()
        || path[b.len() as int] == '/')
}

/// A path copying may target: under the base directory, naming a file
/// (not ending in `/`).
pub open spec fn valid_target(path: Seq<char>) -> bool {
    under_base(path) && path.last() != '/'
}

/// The position of the last `/` of `path`.
pub open spec fn is_last_slash(path: Seq<char>, k: int) -> bool {
    0 <= k < path.len() && path[k] == '/' && forall|j: int| k < j < path.len() ==> path[j] != '/'
}

/// Where the chunks of a file go before it is complete, and the directory
/// that holds both.
pub struct CopyPlan {
    pub dir: String,
    pub tmp: String,
}

/// The plan for `path`: the staging file is `path` with `.tmp` appended,
/// in the same directory.
pub open spec fn plan_for(path: Seq<char>, plan: CopyPlan) -> bool {
    &&& exists|k: int| is_last_slash(path, k) && plan.dir@ == path.subrange(0, k)
    &&& plan.tmp@ == path + tmp_suffix()
}

/// Checks `path` and fixes the staging file and directory for it. A path
/// outside the base directory, or one that names no file, is refused.
pub fn copy_file_plan(path: &str) -> (r: Result<CopyPlan, AgentError>)
    ensures
        r is Ok <==> valid_target(path@),
        r is Err ==> r == Err::<CopyPlan, AgentError>(AgentError::InvalidArgument),
        r matches Ok(plan) ==> plan_for(path@, plan),
{
    proof {
        reveal_strlit("/run/kata-containers");
        reveal_strlit(".tmp");
        assert(CONTAINER_BASE@ =~= base_chars());
        assert(".tmp"@ =~= tmp_suffix());
    }
    let n = path.unicode_len();
    let bl = CONTAINER_BASE.unicode_len();
    if n < bl {
        return Err(AgentError::InvalidArgument);
    }
    let mut i: usize = 0;
    while i < bl
        invariant
            i <= bl,
            bl == base_chars().len(),
            bl <= n,
            n == path@.len(),
            CONTAINER_BASE@ == base_chars(),
            forall|j: int| 0 <= j < i ==> path@[j] == base_chars()[j],
        decreases bl - i,
    {
        if path.get_char(i) != CONTAINER_BASE.get_char(i) {
            proof {
                assert(path@.subrange(0, bl as int)[i as int] != base_chars()[i as int]);
            }
            return Err(AgentError::InvalidArgument);
        }
        i = i + 1;
    }
    proof {
        assert(path@.subrange(0, bl as int) =~= base_chars());
    }
    if n > bl && path.get_char(bl) != '/' {
        return Err(AgentError::InvalidArgument);
    }
    if path.get_char(n - 1) == '/' {
        return Err(AgentError::InvalidArgument);
    }
    let mut k: usize = n - 1;
    while path.get_char(k) != '/'
        invariant
            0 <= k < n,
            n == path@.len(),
            path@[0] == '/',
            forall|j: int| k < j < n ==> path@[j] != '/',
        decreases k,
    {
        k = k - 1;
    }
    let dir = path.substring_char(0, k);
    let mut tmp = String::from_str(path);
    tmp.append(".tmp");
    proof {
        assert(is_last_slash(path@, k as int));
    }
    Ok(CopyPlan { dir: String::from_str(dir), tmp })
}

/// The staged file is committed once it holds exactly the announced size.
pub open spec fn spec_copy_complete(size: i64, file_size: i64) -> bool {
    size == file_size
}

pub fn copy_complete(size: i64, file_size: i64) -> (r: bool)
    ensures
        r == spec_copy_complete(size, file_size),
{
    size == file_size
}

/// Chunks never land on the target itself: they go to a distinct sibling
/// file, and the target only appears when that file is renamed onto it
/// after it is complete.
pub proof fn lemma_staging_is_separate(path: Seq<char>, plan: CopyPlan)
    requires
        plan_for(path, plan),
    ensures
        plan.tmp@ != path,
        plan.tmp@.subrange(0, path.len() as int) == path,
        exists|k: int| is_last_slash(path, k) && is_last_slash(plan.tmp@, k),
{
    assert(plan.tmp@.len() == path.len() + 4);
    assert(plan.tmp@.subrange(0, path.len() as int) =~= path);
    let k = choose|k: int| is_last_slash(path, k) && plan.dir@ == path.subrange(0, k);
    assert(is_last_slash(plan.tmp@, k)) by {
        assert forall|j: int| k < j < plan.tmp@.len() implies plan.tmp@[j] != '/' by {
            if j >= path.len() {
                assert(plan.tmp@[j] == tmp_suffix()[j - path.len()]);
            }
        }
    }
}

} // verus!
