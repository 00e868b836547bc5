//! Whether a process catches a signal, read from its `/proc/<pid>/status`,
//! and the promotion of SIGTERM to SIGKILL for an init process that does
//! not catch it.
use vstd::prelude::*;
use crate::ps::{is_ws, lines, seqs_of, split_lines};

verus! {

pub const SIGKILL: i32 = 9;
pub const SIGTERM: i32 = 15;

/// `SigCgt:` as bytes.
pub open spec fn sig_cgt_tag() -> Seq<u8> {
    seq![83u8, 105u8, 103u8, 67u8, 103u8, 116u8, 58u8]
}

/// `s` without leading white space.
pub open spec fn trim_start(s: Seq<u8>) -> Seq<u8>
    decreases s.len(),
{
    if s.len() > 0 && is_ws(s[0]) {
        trim_start(s.drop_first())
    } else {
        s
    }
}

/// `s` without trailing white space.
pub open spec fn trim_end(s: Seq<u8>) -> Seq<u8>
    decreases s.len(),
{
    if s.len() > 0 && is_ws(s.last()) {
        trim_end(s.drop_last())
    } else {
        s
    }
}

pub open spec fn trim(s: Seq<u8>) -> Seq<u8> {
    trim_end(trim_start(s))
}

pub open spec fn is_hex_digit(b: u8) -> bool {
    (48 <= b && b <= 57) || (65 <= b && b <= 70) || (97 <= b && b <= 102)
}

pub open spec fn hex_digit_value(b: u8) -> int {
    if 48 <= b && b <= 57 {
        b - 48
    } else if 65 <= b && b <= 70 {
        b - 55
    } else {
        b - 87
    }
}

pub open spec fn hex_value(s: Seq<u8>) -> int
    decreases s.len(),
{
    if s.len() == 0 {
        0
    } else {
        hex_value(s.drop_last()) * 16 + hex_digit_value(s.last())
    }
}

/// A mask written as hexadecimal digits that fits in a `u64`.
pub open spec fn hex_mask(s: Seq<u8>) -> Option<u64> {
    if s.len() > 0 && (forall|i: int| 0 <= i < s.len() ==> is_hex_digit(#[trigger] s[i]))
        && hex_value(s) <= u64::MAX {
        Some(hex_value(s) as u64)
    } else {
        None
    }
}

pub open spec fn is_mask_line(l: Seq<u8>) -> bool {
    l.len() >= 7 && l.subrange(0, 7) == sig_cgt_tag()
}

/// Line `k` is the first that starts with `SigCgt:`.
pub open spec fn is_first_mask_line(ls: Seq<Seq<u8>>, k: int) -> bool {
    0 <= k < ls.len() && is_mask_line(ls[k]) && forall|j: int| 0 <= j < k ==> !is_mask_line(ls[j])
}

/// The caught-signal mask of a status file: the value on its first
/// `SigCgt:` line, white space around it ignored.
pub open spec fn caught_mask(status: Seq<u8>) -> Option<u64> {
    let ls = lines(status);
    if exists|k: int| is_first_mask_line(ls, k) {
        let k = choose|k: int| is_first_mask_line(ls, k);
        hex_mask(trim(ls[k].subrange(7, ls[k].len() as int)))
    } else {
        None
    }
}

/// Whether bit `signum - 1` of the mask is set.
pub open spec fn mask_has(mask: u64, signum: u32) -> bool {
    (mask >> ((signum - 1) as u64)) & 1u64 == 1u64
}

/// A status that cannot be read or parsed counts as not handled.
pub open spec fn spec_signal_handled(status: Seq<u8>, signum: u32) -> bool {
    match caught_mask(status) {
        Some(m) => mask_has(m, signum),
        None => false,
    }
}

proof fn lemma_trim_start(s: Seq<u8>, i: int)
    requires
        0 <= i <= s.len(),
        forall|k: int| 0 <= k < i ==> is_ws(#[trigger] s[k]),
    ensures
        trim_start(s) == trim_start(s.subrange(i, s.len() as int)),
    decreases i,
{
    if i > 0 {
        assert(s.drop_first().subrange(i - 1, s.drop_first().len() as int) =~= s.subrange(i, s.len() as int));
        lemma_trim_start(s.drop_first(), i - 1);
    } else {
        assert(s.subrange(0, s.len() as int) =~= s);
    }
}

proof fn lemma_trim_end(s: Seq<u8>, j: int)
    requires
        0 <= j <= s.len(),
        forall|k: int| j <= k < s.len() ==> is_ws(#[trigger] s[k]),
    ensures
        trim_end(s) == trim_end(s.subrange(0, j)),
    decreases s.len() - j,
{
    if j < s.len() {
        assert(s.drop_last().subrange(0, j) =~= s.subrange(0, j));
        lemma_trim_end(s.drop_last(), j);
    } else {
        assert(s.subrange(0, j) =~= s);
    }
}

proof fn lemma_hex_mono(s: Seq<u8>, i: int)
    requires
        0 <= i <= s.len(),
        forall|k: int| 0 <= k < s.len() ==> is_hex_digit(#[trigger] s[k]),
    ensures
        hex_value(s.subrange(0, i)) <= hex_value(s),
        hex_value(s) >= 0,
    decreases s.len(),
{
    if s.len() > 0 {
        let t = s.drop_last();
        assert forall|k: int| 0 <= k < t.len() implies is_hex_digit(#[trigger] t[k]) by {
            assert(t[k] == s[k]);
        }
        if i < s.len() {
            assert(t.subrange(0, i) =~= s.subrange(0, i));
            lemma_hex_mono(t, i);
        } else {
            assert(s.subrange(0, i) =~= s);
            lemma_hex_mono(t, 0);
        }
    } else {
        assert(s.subrange(0, i) =~= s);
    }
}

/// The bounds of `v[start..]` with the white space around it cut off.
pub fn trim_range(v: &Vec<u8>, start: usize) -> (r: (usize, usize))
    requires
        start <= v@.len(),
    ensures
        start <= r.0 <= r.1 <= v@.len(),
        trim(v@.subrange(start as int, v@.len() as int)) == v@.subrange(r.0 as int, r.1 as int),
{
    let mut from: usize = start;
    while from < v.len() && (v[from] == 32 || (9 <= v[from] && v[from] <= 13))
        invariant
            start <= from <= v@.len(),
            forall|j: int| start <= j < from ==> is_ws(#[trigger] v@[j]),
        decreases v@.len() - from,
    {
        from = from + 1;
    }
    let mut to: usize = v.len();
    while to > from && (v[to - 1] == 32 || (9 <= v[to - 1] && v[to - 1] <= 13))
        invariant
            from <= to <= v@.len(),
            forall|j: int| to <= j < v@.len() ==> is_ws(#[trigger] v@[j]),
        decreases to,
    {
        to = to - 1;
    }
    proof {
        let rest = v@.subrange(start as int, v@.len() as int);
        lemma_trim_start(rest, from - start);
        let mid = rest.subrange(from - start, rest.len() as int);
        assert(mid =~= v@.subrange(from as int, v@.len() as int));
        lemma_trim_end(mid, to - from);
        assert(mid.subrange(0, to - from) =~= v@.subrange(from as int, to as int));
        if from < to {
            assert(!is_ws(mid[0]));
            assert(trim_start(mid) == mid);
        } else {
            assert(mid.subrange(0, 0) =~= Seq::<u8>::empty());
        }
        if to - from > 0 {
            assert(!is_ws(mid.subrange(0, to - from).last()));
        }
    }
    (from, to)
}

/// Reads the hexadecimal mask in `l[from..to]`.
fn parse_hex(l: &Vec<u8>, from: usize, to: usize) -> (r: Option<u64>)
    requires
        from <= to <= l@.len(),
    ensures
        r == hex_mask(l@.subrange(from as int, to as int)),
{
    let ghost s = l@.subrange(from as int, to as int);
    if from == to {
        return None;
    }
    let mut v: u64 = 0;
    let mut i: usize = from;
    while i < to
        invariant
            from <= i <= to <= l@.len(),
            from < to,
            s == l@.subrange(from as int, to as int),
            forall|k: int| 0 <= k < i - from ==> is_hex_digit(#[trigger] s[k]),
            v == hex_value(s.subrange(0, i - from)),
        decreases to - i,
    {
        let c = l[i];
        proof {
            assert(s.subrange(0, i - from + 1).drop_last() =~= s.subrange(0, i - from));
            assert(s[i - from] == c);
        }
        let d: u64 = if 48 <= c && c <= 57 {
            (c - 48) as u64
        } else if 65 <= c && c <= 70 {
            (c - 55) as u64
        } else if 97 <= c && c <= 102 {
            (c - 87) as u64
        } else {
            return None;
        };
        if v > 0x0fff_ffff_ffff_ffff {
            proof {
                if forall|k: int| 0 <= k < s.len() ==> is_hex_digit(#[trigger] s[k]) {
                    lemma_hex_mono(s, i - from + 1);
                }
            }
            return None;
        }
        v = v * 16 + d;
        i = i + 1;
    }
    proof {
        assert(s.subrange(0, s.len() as int) =~= s);
    }
    Some(v)
}

/// The caught-signal mask of a status file.
pub fn parse_caught_mask(status: &Vec<u8>) -> (r: Option<u64>)
    ensures
        r == caught_mask(status@),
{
    let ls = split_lines(status);
    let ghost lv = seqs_of(ls@);
    let mut k: usize = 0;
    while k < ls.len()
        invariant
            k <= ls@.len(),
            lv == seqs_of(ls@),
            lv == lines(status@),
            forall|j: int| 0 <= j < k ==> !is_mask_line(#[trigger] lv[j]),
        decreases ls@.len() - k,
    {
        let l = &ls[k];
        proof {
            assert(lv[k as int] == l@);
        }
        if l.len() >= 7 && l[0] == 83 && l[1] == 105 && l[2] == 103 && l[3] == 67 && l[4] == 103
            && l[5] == 116 && l[6] == 58 {
            proof {
                assert(l@.subrange(0, 7) =~= sig_cgt_tag());
                assert(is_first_mask_line(lv, k as int));
                let k2 = choose|k2: int| is_first_mask_line(lv, k2);
                if k2 < k {
                    assert(!is_mask_line(lv[k2]));
                } else if k2 > k {
                    assert(!is_mask_line(lv[k as int]));
                }
            }
            let (from, to) = trim_range(l, 7);
            return parse_hex(l, from, to);
        }
        proof {
            if l@.len() >= 7 {
                assert(l@.subrange(0, 7) != sig_cgt_tag()) by {
                    if l@.subrange(0, 7) == sig_cgt_tag() {
                        assert(l@.subrange(0, 7)[0] == l@[0]);
                        assert(l@.subrange(0, 7)[1] == l@[1]);
                        assert(l@.subrange(0, 7)[2] == l@[2]);
                        assert(l@.subrange(0, 7)[3] == l@[3]);
                        assert(l@.subrange(0, 7)[4] == l@[4]);
                        assert(l@.subrange(0, 7)[5] == l@[5]);
                        assert(l@.subrange(0, 7)[6] == l@[6]);
                    }
                }
            }
        }
        k = k + 1;
    }
    proof {
        assert forall|k2: int| !is_first_mask_line(lv, k2) by {
            if 0 <= k2 < lv.len() {
                assert(!is_mask_line(lv[k2]));
            }
        }
    }
    None
}

/// Whether the process whose status file reads `status` catches signal
/// `signum`.
pub fn is_signal_handled(status: &Vec<u8>, signum: u32) -> (r: bool)
    requires
        1 <= signum <= 64,
    ensures
        r == spec_signal_handled(status@, signum),
{
    match parse_caught_mask(status) {
        Some(m) => (m >> ((signum - 1) as u64)) & 1u64 == 1u64,
        None => false,
    }
}

/// The signal actually sent: SIGTERM to an init process that does not
/// catch it would be ignored, so SIGKILL goes instead.
pub open spec fn spec_effective_signal(init: bool, signum: i32, handled: bool) -> i32 {
    if init && signum == SIGTERM && !handled {
        SIGKILL
    } else {
        signum
    }
}

pub fn effective_signal(init: bool, signum: i32, handled: bool) -> (r: i32)
    ensures
        r == spec_effective_signal(init, signum, handled),
{
    if init && signum == SIGTERM && !handled {
        SIGKILL
    } else {
        signum
    }
}

} // verus!
