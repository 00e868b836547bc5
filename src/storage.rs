//! Reference counts of the mount points that the sandbox and its
//! containers use.
use vstd::prelude::*;

verus! {

/// A mount point and the number of users it has.
pub struct StorageRef {
    pub mount_point: String,
    pub refcount: u32,
}

/// Mount points are unique and every entry has a user.
pub open spec fn storages_wf(st: Seq<StorageRef>) -> bool {
    &&& forall|i: int, j: int|
        0 <= i < st.len() && 0 <= j < st.len() && i != j ==> #[trigger] st[i].mount_point@
            != #[trigger] st[j].mount_point@
    &&& forall|i: int| 0 <= i < st.len() ==> #[trigger] st[i].refcount >= 1
}

pub open spec fn has_storage(st: Seq<StorageRef>, mp: Seq<char>) -> bool {
    exists|i: int| 0 <= i < st.len() && #[trigger] st[i].mount_point@ == mp
}

/// The position of `mp` in `st`, or -1.
pub open spec fn storage_index(st: Seq<StorageRef>, mp: Seq<char>) -> int {
    if has_storage(st, mp) {
        choose|i: int| 0 <= i < st.len() && #[trigger] st[i].mount_point@ == mp
    } else {
        -1
    }
}

/// The number of users of `mp`; zero when it is not in the table.
pub open spec fn refcount_of(st: Seq<StorageRef>, mp: Seq<char>) -> nat {
    if has_storage(st, mp) {
        st[storage_index(st, mp)].refcount as nat
    } else {
        0
    }
}

/// One more user of `mp`; a new entry starts at one. A count at the
/// largest `u32` stays there.
pub open spec fn acquire_one(st: Seq<StorageRef>, mp: String) -> Seq<StorageRef> {
    let i = storage_index(st, mp@);
    if i < 0 {
        st.push(StorageRef { mount_point: mp, refcount: 1 })
    } else if st[i].refcount == u32::MAX {
        st
    } else {
        st.update(i, StorageRef { mount_point: st[i].mount_point, refcount: (st[i].refcount + 1) as u32 })
    }
}

/// One user fewer of `mp`; the entry goes when its last user does.
pub open spec fn release_one(st: Seq<StorageRef>, mp: Seq<char>) -> Seq<StorageRef> {
    let i = storage_index(st, mp);
    if i < 0 {
        st
    } else if st[i].refcount <= 1 {
        st.remove(i)
    } else {
        st.update(i, StorageRef { mount_point: st[i].mount_point, refcount: (st[i].refcount - 1) as u32 })
    }
}

/// Whether releasing `mp` removes its entry.
pub open spec fn frees(st: Seq<StorageRef>, mp: Seq<char>) -> bool {
    has_storage(st, mp) && st[storage_index(st, mp)].refcount <= 1
}

pub open spec fn acquire_all(st: Seq<StorageRef>, mps: Seq<String>) -> Seq<StorageRef>
    decreases mps.len(),
{
    if mps.len() == 0 {
        st
    } else {
        acquire_one(acquire_all(st, mps.drop_last()), mps.last())
    }
}

pub open spec fn release_all(st: Seq<StorageRef>, mps: Seq<String>) -> Seq<StorageRef>
    decreases mps.len(),
{
    if mps.len() == 0 {
        st
    } else {
        release_one(release_all(st, mps.drop_last()), mps.last()@)
    }
}

/// The mount points, in order, whose last user goes when `mps` are
/// released one after the other.
pub open spec fn freed_by(st: Seq<StorageRef>, mps: Seq<String>) -> Seq<String>
    decreases mps.len(),
{
    if mps.len() == 0 {
        Seq::empty()
    } else {
        let prev = freed_by(st, mps.drop_last());
        if frees(release_all(st, mps.drop_last()), mps.last()@) {
            prev.push(mps.last())
        } else {
            prev
        }
    }
}

proof fn lemma_index(st: Seq<StorageRef>, mp: Seq<char>, i: int)
    requires
        storages_wf(st),
        0 <= i < st.len(),
        st[i].mount_point@ == mp,
    ensures
        has_storage(st, mp),
        storage_index(st, mp) == i,
{
    assert(has_storage(st, mp));
}

proof fn lemma_acquire_one(st: Seq<StorageRef>, mp: String)
    requires
        storages_wf(st),
    ensures
        storages_wf(acquire_one(st, mp)),
{
    let r = acquire_one(st, mp);
    let i = storage_index(st, mp@);
    if i < 0 {
        assert forall|a: int, b: int|
            0 <= a < r.len() && 0 <= b < r.len() && a != b implies #[trigger] r[a].mount_point@
            != #[trigger] r[b].mount_point@ by {
            if a == st.len() {
                assert(st[b].mount_point@ != mp@);
            } else if b == st.len() {
                assert(st[a].mount_point@ != mp@);
            }
        }
    } else {
        assert(0 <= i < st.len() && st[i].mount_point@ == mp@);
    }
}

proof fn lemma_release_one(st: Seq<StorageRef>, mp: Seq<char>)
    requires
        storages_wf(st),
    ensures
        storages_wf(release_one(st, mp)),
{
    let r = release_one(st, mp);
    let i = storage_index(st, mp);
    if i >= 0 {
        assert(0 <= i < st.len());
        if st[i].refcount <= 1 {
            assert forall|a: int, b: int|
                0 <= a < r.len() && 0 <= b < r.len() && a != b implies #[trigger] r[a].mount_point@
                != #[trigger] r[b].mount_point@ by {
                let a2 = if a < i { a } else { a + 1 };
                let b2 = if b < i { b } else { b + 1 };
                assert(r[a] == st[a2]);
                assert(r[b] == st[b2]);
            }
            assert forall|a: int| 0 <= a < r.len() implies #[trigger] r[a].refcount >= 1 by {
                let a2 = if a < i { a } else { a + 1 };
                assert(r[a] == st[a2]);
            }
        }
    }
}

/// The position of `mp` in the table.
pub fn find_storage(st: &Vec<StorageRef>, mp: &String) -> (r: Option<usize>)
    requires
        storages_wf(st@),
    ensures
        r matches Some(i) ==> i < st@.len() && storage_index(st@, mp@) == i,
        r is None ==> !has_storage(st@, mp@) && storage_index(st@, mp@) == -1,
{
    let mut i: usize = 0;
    while i < st.len()
        invariant
            i <= st@.len(),
            storages_wf(st@),
            forall|k: int| 0 <= k < i ==> st@[k].mount_point@ != mp@,
        decreases st@.len() - i,
    {
        if st[i].mount_point == *mp {
            proof {
                lemma_index(st@, mp@, i as int);
            }
            return Some(i);
        }
        i = i + 1;
    }
    None
}

/// Counts one more user of each of `mps`, in order.
pub fn acquire_storages(st: &mut Vec<StorageRef>, mps: &Vec<String>)
    requires
        storages_wf(old(st)@),
    ensures
        storages_wf(final(st)@),
        final(st)@ == acquire_all(old(st)@, mps@),
{
    let mut k: usize = 0;
    while k < mps.len()
        invariant
            k <= mps@.len(),
            storages_wf(st@),
            st@ == acquire_all(old(st)@, mps@.subrange(0, k as int)),
        decreases mps@.len() - k,
    {
        let ghost before = st@;
        let mp = &mps[k];
        proof {
            assert(mps@.subrange(0, k + 1).drop_last() =~= mps@.subrange(0, k as int));
            lemma_acquire_one(before, *mp);
        }
        match find_storage(st, mp) {
            None => {
                st.push(StorageRef { mount_point: mp.clone(), refcount: 1 });
            },
            Some(i) => {
                if st[i].refcount < u32::MAX {
                    st[i].refcount = st[i].refcount + 1;
                }
            },
        }
        proof {
            assert(st@ =~= acquire_one(before, *mp));
        }
        k = k + 1;
    }
    proof {
        assert(mps@.subrange(0, mps@.len() as int) =~= mps@);
    }
}

/// Counts one user fewer of each of `mps`, in order, and hands back the
/// mount points whose last user went.
pub fn release_storages(st: &mut Vec<StorageRef>, mps: &Vec<String>) -> (r: Vec<String>)
    requires
        storages_wf(old(st)@),
    ensures
        storages_wf(final(st)@),
        final(st)@ == release_all(old(st)@, mps@),
        r@ == freed_by(old(st)@, mps@),
{
    let mut freed: Vec<String> = Vec::new();
    let mut k: usize = 0;
    while k < mps.len()
        invariant
            k <= mps@.len(),
            storages_wf(st@),
            st@ == release_all(old(st)@, mps@.subrange(0, k as int)),
            freed@ == freed_by(old(st)@, mps@.subrange(0, k as int)),
        decreases mps@.len() - k,
    {
        let ghost before = st@;
        let mp = &mps[k];
        proof {
            assert(mps@.subrange(0, k + 1).drop_last() =~= mps@.subrange(0, k as int));
            lemma_release_one(before, mp@);
        }
        match find_storage(st, mp) {
            None => {},
            Some(i) => {
                if st[i].refcount <= 1 {
                    st.remove(i);
                    freed.push(mp.clone());
                } else {
                    st[i].refcount = st[i].refcount - 1;
                }
            },
        }
        proof {
            assert(st@ =~= release_one(before, mp@));
        }
        k = k + 1;
    }
    proof {
        assert(mps@.subrange(0, mps@.len() as int) =~= mps@);
    }
    freed
}

} // verus!
