//! Listing a container's processes: the output format, the arguments for
//! `ps`, and the filtering of its table down to the container's pids.
use vstd::prelude::*;
use crate::error::AgentError;

verus! {

pub const NEWLINE: u8 = 10;

/// ASCII white space, as `str::split_whitespace` treats it.
pub open spec fn is_ws(b: u8) -> bool {
    b == 32 || (9 <= b && b <= 13)
}

pub open spec fn is_digit(b: u8) -> bool {
    48 <= b && b <= 57
}

pub open spec fn seqs_of(v: Seq<Vec<u8>>) -> Seq<Seq<u8>> {
    v.map_values(|x: Vec<u8>| x@)
}

/// `s` cut at every newline; the pieces hold no newline, and there is one
/// more piece than there are newlines.
pub open spec fn lines(s: Seq<u8>) -> Seq<Seq<u8>>
    decreases s.len(),
{
    if s.len() == 0 {
        seq![Seq::empty()]
    } else {
        let prev = lines(s.drop_last());
        if s.last() == NEWLINE {
            prev.push(Seq::empty())
        } else {
            prev.update(prev.len() - 1, prev.last().push(s.last()))
        }
    }
}

/// The maximal runs of non-white-space bytes of `s`, in order.
pub open spec fn fields(s: Seq<u8>) -> Seq<Seq<u8>>
    decreases s.len(),
{
    if s.len() == 0 {
        Seq::empty()
    } else {
        let prev = fields(s.drop_last());
        let c = s.last();
        if is_ws(c) {
            prev
        } else if s.len() >= 2 && !is_ws(s[s.len() - 2]) {
            prev.update(prev.len() - 1, prev.last().push(c))
        } else {
            prev.push(seq![c])
        }
    }
}

/// The number that a run of decimal digits spells.
pub open spec fn digits_value(s: Seq<u8>) -> int
    decreases s.len(),
{
    if s.len() == 0 {
        0
    } else {
        digits_value(s.drop_last()) * 10 + (s.last() - 48)
    }
}

/// A pid written as decimal digits that fits in an `i32`.
pub open spec fn pid_value(s: Seq<u8>) -> Option<i32> {
    if s.len() > 0 && (forall|i: int| 0 <= i < s.len() ==> is_digit(#[trigger] s[i]))
        && digits_value(s) <= i32::MAX {
        Some(digits_value(s) as i32)
    } else {
        None
    }
}

pub open spec fn pid_title() -> Seq<u8> {
    seq![80u8, 73u8, 68u8]
}

/// Field `k` is the first one titled `PID`.
pub open spec fn is_pid_column(hf: Seq<Seq<u8>>, k: int) -> bool {
    0 <= k < hf.len() && hf[k] == pid_title() && forall|j: int| 0 <= j < k ==> hf[j] != pid_title()
}

/// A body line is kept when its field in the pid column is one of `pids`.
pub open spec fn keeps(line: Seq<u8>, col: int, pids: Seq<i32>) -> bool {
    let f = fields(line);
    col < f.len() && (pid_value(f[col]) matches Some(p) && pids.contains(p))
}

/// The kept lines, each ended by a newline.
pub open spec fn kept_rows(ls: Seq<Seq<u8>>, col: int, pids: Seq<i32>) -> Seq<u8>
    decreases ls.len(),
{
    if ls.len() == 0 {
        Seq::empty()
    } else {
        kept_rows(ls.drop_last(), col, pids) + if keeps(ls.last(), col, pids) {
            ls.last().push(NEWLINE)
        } else {
            Seq::empty()
        }
    }
}

/// The filtered table: the header line as it came, then every body line
/// whose pid is one of `pids`. `None` when the header has no `PID` column.
pub open spec fn process_table(out: Seq<u8>, pids: Seq<i32>) -> Option<Seq<u8>> {
    let ls = lines(out);
    let hf = fields(ls[0]);
    if exists|k: int| is_pid_column(hf, k) {
        let col = choose|k: int| is_pid_column(hf, k);
        Some(ls[0].push(NEWLINE) + kept_rows(ls.drop_first(), col, pids))
    } else {
        None
    }
}

/// Cuts `s` into lines.
pub fn split_lines(s: &Vec<u8>) -> (r: Vec<Vec<u8>>)
    ensures
        seqs_of(r@) == lines(s@),
{
    let mut done: Vec<Vec<u8>> = Vec::new();
    let mut cur: Vec<u8> = Vec::new();
    let mut i: usize = 0;
    while i < s.len()
        invariant
            i <= s@.len(),
            lines(s@.subrange(0, i as int)) == seqs_of(done@).push(cur@),
        decreases s@.len() - i,
    {
        let c = s[i];
        proof {
            assert(s@.subrange(0, i + 1).drop_last() =~= s@.subrange(0, i as int));
        }
        let ghost d0 = done@;
        let ghost c0 = cur@;
        if c == NEWLINE {
            let line = cur;
            cur = Vec::new();
            done.push(line);
            proof {
                assert(seqs_of(done@) =~= seqs_of(d0).push(c0));
            }
        } else {
            cur.push(c);
        }
        proof {
            assert(lines(s@.subrange(0, i + 1)) =~= seqs_of(done@).push(cur@));
        }
        i = i + 1;
    }
    let ghost d0 = done@;
    let ghost c0 = cur@;
    done.push(cur);
    proof {
        assert(s@.subrange(0, s@.len() as int) =~= s@);
        assert(seqs_of(done@) =~= seqs_of(d0).push(c0));
    }
    done
}

fn is_space(b: u8) -> (r: bool)
    ensures
        r == is_ws(b),
{
    b == 32 || (9 <= b && b <= 13)
}

/// Cuts `s` into its white-space separated fields.
pub fn split_fields(s: &Vec<u8>) -> (r: Vec<Vec<u8>>)
    ensures
        seqs_of(r@) == fields(s@),
{
    let mut done: Vec<Vec<u8>> = Vec::new();
    let mut cur: Vec<u8> = Vec::new();
    let mut in_field = false;
    let mut i: usize = 0;
    while i < s.len()
        invariant
            i <= s@.len(),
            in_field == (i > 0 && !is_ws(s@[i - 1])),
            fields(s@.subrange(0, i as int)) == if in_field {
                seqs_of(done@).push(cur@)
            } else {
                seqs_of(done@)
            },
        decreases s@.len() - i,
    {
        let c = s[i];
        proof {
            assert(s@.subrange(0, i + 1).drop_last() =~= s@.subrange(0, i as int));
            if i > 0 {
                assert(s@.subrange(0, i + 1)[i - 1] == s@[i - 1]);
            }
        }
        let ghost d0 = done@;
        let ghost c0 = cur@;
        if is_space(c) {
            if in_field {
                let f = cur;
                cur = Vec::new();
                done.push(f);
                proof {
                    assert(seqs_of(done@) =~= seqs_of(d0).push(c0));
                }
            }
            in_field = false;
        } else {
            if in_field {
                cur.push(c);
                proof {
                    assert(seqs_of(done@).push(cur@) =~= seqs_of(d0).push(c0).update(
                        seqs_of(d0).len() as int,
                        c0.push(c),
                    ));
                }
            } else {
                cur = Vec::new();
                cur.push(c);
                proof {
                    assert(cur@ =~= seq![c]);
                }
            }
            in_field = true;
        }
        i = i + 1;
    }
    proof {
        assert(s@.subrange(0, s@.len() as int) =~= s@);
    }
    if in_field {
        let ghost d0 = done@;
        let ghost c0 = cur@;
        done.push(cur);
        proof {
            assert(seqs_of(done@) =~= seqs_of(d0).push(c0));
        }
    }
    done
}

pub proof fn lemma_digits_mono(s: Seq<u8>, i: int)
    requires
        0 <= i <= s.len(),
        forall|k: int| 0 <= k < s.len() ==> is_digit(#[trigger] s[k]),
    ensures
        digits_value(s.subrange(0, i)) <= digits_value(s),
        digits_value(s) >= 0,
    decreases s.len(),
{
    if s.len() > 0 {
        let t = s.drop_last();
        assert forall|k: int| 0 <= k < t.len() implies is_digit(#[trigger] t[k]) by {
            assert(t[k] == s[k]);
        }
        if i < s.len() {
            assert(t.subrange(0, i) =~= s.subrange(0, i));
            lemma_digits_mono(t, i);
        } else {
            assert(s.subrange(0, i) =~= s);
            lemma_digits_mono(t, 0);
        }
    } else {
        assert(s.subrange(0, i) =~= s);
    }
}

/// Reads a pid written as decimal digits.
pub fn parse_pid(s: &Vec<u8>) -> (r: Option<i32>)
    ensures
        r == pid_value(s@),
{
    if s.len() == 0 {
        return None;
    }
    let mut v: u64 = 0;
    let mut i: usize = 0;
    while i < s.len()
        invariant
            i <= s@.len(),
            s@.len() > 0,
            forall|k: int| 0 <= k < i ==> is_digit(#[trigger] s@[k]),
            v == digits_value(s@.subrange(0, i as int)),
            v <= i32::MAX,
        decreases s@.len() - i,
    {
        let c = s[i];
        proof {
            assert(s@.subrange(0, i + 1).drop_last() =~= s@.subrange(0, i as int));
        }
        if c < 48 || c > 57 {
            return None;
        }
        v = v * 10 + (c - 48) as u64;
        if v > 0x7fff_ffff {
            proof {
                if forall|k: int| 0 <= k < s@.len() ==> is_digit(#[trigger] s@[k]) {
                    lemma_digits_mono(s@, i + 1);
                }
            }
            return None;
        }
        i = i + 1;
    }
    proof {
        assert(s@.subrange(0, s@.len() as int) =~= s@);
    }
    Some(v as i32)
}

/// The first field titled `PID`.
pub fn find_pid_column(hf: &Vec<Vec<u8>>) -> (r: Option<usize>)
    ensures
        r matches Some(k) ==> is_pid_column(seqs_of(hf@), k as int),
        r is None ==> !exists|k: int| is_pid_column(seqs_of(hf@), k),
{
    let ghost fs = seqs_of(hf@);
    let mut k: usize = 0;
    while k < hf.len()
        invariant
            k <= hf@.len(),
            fs == seqs_of(hf@),
            forall|j: int| 0 <= j < k ==> fs[j] != pid_title(),
        decreases hf@.len() - k,
    {
        let f = &hf[k];
        if f.len() == 3 && f[0] == 80 && f[1] == 73 && f[2] == 68 {
            proof {
                assert(fs[k as int] =~= pid_title());
            }
            return Some(k);
        }
        proof {
            assert(fs[k as int] == f@);
            if f@.len() == 3 {
                assert(f@ != pid_title());
            }
        }
        k = k + 1;
    }
    proof {
        assert forall|k2: int| !is_pid_column(fs, k2) by {
            if 0 <= k2 < fs.len() {
                assert(fs[k2] != pid_title());
            }
        }
    }
    None
}

/// Keeps the header of `ps` output and the rows whose pid is one of
/// `pids`, each line ended by a newline. Output whose header has no `PID`
/// column is refused.
pub fn filter_process_table(out: &Vec<u8>, pids: &Vec<i32>) -> (r: Result<Vec<u8>, AgentError>)
    ensures
        process_table(out@, pids@) is None ==> r == Err::<Vec<u8>, AgentError>(AgentError::Internal),
        process_table(out@, pids@) matches Some(t) ==> (r matches Ok(v) && v@ == t),
{
    let ls = split_lines(out);
    let ghost lv = seqs_of(ls@);
    proof {
        assert(lv.len() >= 1) by {
            lemma_lines_nonempty(out@);
        }
    }
    let header = &ls[0];
    let hf = split_fields(header);
    let col = match find_pid_column(&hf) {
        Some(c) => c,
        None => return Err(AgentError::Internal),
    };
    proof {
        let hfs = fields(lv[0]);
        assert(is_pid_column(hfs, col as int));
        let c2 = choose|k: int| is_pid_column(hfs, k);
        assert(is_pid_column(hfs, c2));
        if c2 < col {
            assert(hfs[c2] != pid_title());
        } else if c2 > col {
            assert(hfs[col as int] != pid_title());
        }
    }
    let mut result: Vec<u8> = Vec::new();
    let mut k: usize = 0;
    while k < header.len()
        invariant
            k <= header@.len(),
            result@ == header@.subrange(0, k as int),
        decreases header@.len() - k,
    {
        result.push(header[k]);
        proof {
            assert(result@ =~= header@.subrange(0, k + 1));
        }
        k = k + 1;
    }
    result.push(NEWLINE);
    proof {
        assert(header@.subrange(0, header@.len() as int) =~= header@);
    }
    let ghost head = result@;
    let ghost body = lv.drop_first();
    let mut i: usize = 1;
    while i < ls.len()
        invariant
            1 <= i <= ls@.len(),
            lv == seqs_of(ls@),
            body == lv.drop_first(),
            result@ == head + kept_rows(body.subrange(0, i - 1), col as int, pids@),
        decreases ls@.len() - i,
    {
        let line = &ls[i];
        let f = split_fields(line);
        let mut keep = false;
        if col < f.len() {
            match parse_pid(&f[col]) {
                Some(p) => {
                    let mut j: usize = 0;
                    while j < pids.len()
                        invariant
                            j <= pids@.len(),
                            keep == exists|q: int| 0 <= q < j && pids@[q] == p,
                        decreases pids@.len() - j,
                    {
                        if pids[j] == p {
                            keep = true;
                        }
                        j = j + 1;
                    }
                },
                None => {},
            }
        }
        proof {
            assert(body.subrange(0, i as int).drop_last() =~= body.subrange(0, i - 1));
            assert(body.subrange(0, i as int).last() == line@);
            if col < f@.len() {
                assert(seqs_of(f@)[col as int] == f@[col as int]@);
            }
            assert(keep == keeps(line@, col as int, pids@));
        }
        if keep {
            let mut k: usize = 0;
            let ghost r0 = result@;
            while k < line.len()
                invariant
                    k <= line@.len(),
                    result@ == r0 + line@.subrange(0, k as int),
                decreases line@.len() - k,
            {
                result.push(line[k]);
                proof {
                    assert(result@ =~= r0 + line@.subrange(0, k + 1));
                }
                k = k + 1;
            }
            result.push(NEWLINE);
            proof {
                assert(line@.subrange(0, line@.len() as int) =~= line@);
                assert(result@ =~= r0 + line@.push(NEWLINE));
            }
        }
        proof {
            assert(result@ =~= head + kept_rows(body.subrange(0, i as int), col as int, pids@));
        }
        i = i + 1;
    }
    proof {
        assert(body.subrange(0, body.len() as int) =~= body);
    }
    Ok(result)
}

proof fn lemma_lines_nonempty(s: Seq<u8>)
    ensures
        lines(s).len() >= 1,
    decreases s.len(),
{
    if s.len() > 0 {
        lemma_lines_nonempty(s.drop_last());
    }
}

/// How the process list is to be rendered.
#[derive(Clone, Copy, Debug, PartialEq, Eq, Structural)]
pub enum ListFormat {
    Table,
    Json,
}

pub open spec fn table_name() -> Seq<char> {
    seq!['t', 'a', 'b', 'l', 'e']
}

pub open spec fn json_name() -> Seq<char> {
    seq!['j', 's', 'o', 'n']
}

/// `table` and `json` are the formats known; any other is refused.
pub fn parse_format(format: &str) -> (r: Result<ListFormat, AgentError>)
    ensures
        format@ == table_name() ==> r == Ok::<ListFormat, AgentError>(ListFormat::Table),
        format@ == json_name() ==> r == Ok::<ListFormat, AgentError>(ListFormat::Json),
        format@ != table_name() && format@ != json_name() ==> r == Err::<ListFormat, AgentError>(
            AgentError::InvalidArgument,
        ),
{
    proof {
        reveal_strlit("table");
        reveal_strlit("json");
        assert("table"@ =~= table_name());
        assert("json"@ =~= json_name());
    }
    let f = String::from_str(format);
    if f == String::from_str("table") {
        Ok(ListFormat::Table)
    } else if f == String::from_str("json") {
        Ok(ListFormat::Json)
    } else {
        Err(AgentError::InvalidArgument)
    }
}

/// The arguments `ps` is run with: those given, or `-ef` when none are.
pub fn ps_args(args: Vec<String>) -> (r: Vec<String>)
    ensures
        args@.len() > 0 ==> r@ == args@,
        args@.len() == 0 ==> r@.len() == 1 && r@[0]@ == seq!['-', 'e', 'f'],
{
    if args.len() > 0 {
        return args;
    }
    proof {
        reveal_strlit("-ef");
    }
    let mut r: Vec<String> = Vec::new();
    r.push(String::from_str("-ef"));
    r
}

#[verifier::external_type_specification]
#[verifier::external_body]
pub struct ExJsonError(serde_json::Error);

/// The decimal digits of `n` as ASCII bytes.
pub open spec fn dec_bytes(n: nat) -> Seq<u8>
    decreases n,
{
    if n < 10 {
        seq![(48 + n) as u8]
    } else {
        dec_bytes(n / 10).push((48 + n % 10) as u8)
    }
}

/// An integer as JSON writes it: a `-` for a negative one, then its digits.
pub open spec fn int_text(v: i32) -> Seq<u8> {
    if v < 0 {
        seq![45u8] + dec_bytes((-v) as nat)
    } else {
        dec_bytes(v as nat)
    }
}

/// The integers written one after the other, separated by `,`.
pub open spec fn json_items(p: Seq<i32>) -> Seq<u8>
    decreases p.len(),
{
    if p.len() == 0 {
        Seq::empty()
    } else if p.len() == 1 {
        int_text(p[0])
    } else {
        json_items(p.drop_last()) + seq![44u8] + int_text(p.last())
    }
}

/// The compact JSON array of the pids: `[`, the items, `]`.
pub open spec fn json_array(p: Seq<i32>) -> Seq<u8> {
    seq![91u8] + json_items(p) + seq![93u8]
}

/// Relies on `serde_json::to_vec`: a sequence of integers is written as a
/// compact JSON array, and writing into a `Vec<u8>` cannot fail.
#[verifier::external_body]
fn pids_to_json(pids: &Vec<i32>) -> (r: Result<Vec<u8>, serde_json::Error>)
    ensures
        r is Ok,
        r->Ok_0@ == json_array(pids@),
{
    serde_json::to_vec(pids)
}

/// The pids as a JSON array.
pub fn list_pids_json(pids: &Vec<i32>) -> (r: Result<Vec<u8>, AgentError>)
    ensures
        r matches Ok(v) && v@ == json_array(pids@),
{
    match pids_to_json(pids) {
        Ok(v) => Ok(v),
        Err(_) => Err(AgentError::Internal),
    }
}

} // verus!
