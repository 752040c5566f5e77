//! Reading the output of `nvidia-smi --format=csv,noheader,nounits`:
//! its lines, and the fields of each line.
use vstd::prelude::*;
use crate::task_manager::string_views;
use crate::text::{
    chars_of, find_char, parse_unsigned, parse_unsigned_exec, prefix_before,
    string_of, trim, trim_bounds, IntErrorKind,
};

verus! {

/// The prefix before a character is no longer than the text.
pub proof fn lemma_prefix_before_len(s: Seq<char>, c: char)
    ensures
        prefix_before(s, c).len() <= s.len(),
        prefix_before(s, c).len() < s.len() ==> s[prefix_before(s, c).len() as int] == c,
        prefix_before(s, c) == s.take(prefix_before(s, c).len() as int),
    decreases s.len(),
{
    if s.len() > 0 && s[0] != c {
        lemma_prefix_before_len(s.drop_first(), c);
        assert(prefix_before(s, c) =~= s.take(prefix_before(s, c).len() as int));
    } else {
        assert(prefix_before(s, c) =~= s.take(0));
    }
}

/// A line without the `\r` of a `\r\n` ending.
pub open spec fn strip_cr(p: Seq<char>) -> Seq<char> {
    if p.len() > 0 && p.last() == '\r' {
        p.drop_last()
    } else {
        p
    }
}

/// The lines of `s` (`str::lines`): split at `\n`, a `\r` before the
/// `\n` dropped, and no empty line after a final `\n`.
pub open spec fn lines_of(s: Seq<char>) -> Seq<Seq<char>>
    decreases s.len(),
{
    if s.len() == 0 {
        Seq::empty()
    } else {
        let p = prefix_before(s, '\n');
        if p.len() >= s.len() {
            seq![p]
        } else {
            proof {
                lemma_prefix_before_len(s, '\n');
            }
            seq![strip_cr(p)] + lines_of(s.skip(p.len() + 1int))
        }
    }
}

/// The fields of a comma-separated line (`line.split(',')`), untrimmed.
pub open spec fn fields(s: Seq<char>) -> Seq<Seq<char>>
    decreases s.len(),
{
    let p = prefix_before(s, ',');
    if p.len() >= s.len() {
        seq![p]
    } else {
        proof {
            lemma_prefix_before_len(s, ',');
        }
        seq![p] + fields(s.skip(p.len() + 1int))
    }
}

/// The lines of `text`, as `str::lines` gives them.
pub fn split_lines(text: &str) -> (r: Vec<String>)
    ensures
        string_views(r@) == lines_of(text@),
{
    let v = chars_of(text);
    let len = v.len();
    let mut r: Vec<String> = Vec::new();
    let mut p: usize = 0;
    assert(v@.subrange(0, len as int) =~= v@);
    while p < len
        invariant
            p <= len == v@.len(),
            v@ == text@,
            lines_of(v@) == string_views(r@) + lines_of(v@.subrange(p as int, len as int)),
        decreases len - p,
    {
        let e = find_char(&v, p, len, '\n');
        let ghost s = v@.subrange(p as int, len as int);
        let ghost before = string_views(r@);
        proof {
            lemma_prefix_before_len(s, '\n');
        }
        if e == len {
            let line = string_of(&v, p, len);
            r.push(line);
            assert(string_views(r@) =~= before.push(s));
            assert(lines_of(s) == seq![s]);
            assert(lines_of(v@.subrange(len as int, len as int)) =~= Seq::<Seq<char>>::empty());
            assert(string_views(r@) + Seq::<Seq<char>>::empty() =~= before + seq![s]);
            p = len;
        } else {
            let end = if e > p && v[e - 1] == '\r' {
                e - 1
            } else {
                e
            };
            let line = string_of(&v, p, end);
            r.push(line);
            proof {
                let pre = v@.subrange(p as int, e as int);
                assert(strip_cr(pre) =~= v@.subrange(p as int, end as int));
                assert(s.skip(e - p + 1) =~= v@.subrange(e + 1, len as int));
                assert(string_views(r@) =~= before.push(strip_cr(pre)));
                assert(before + (seq![strip_cr(pre)] + lines_of(
                    v@.subrange(e + 1, len as int),
                )) =~= string_views(r@) + lines_of(v@.subrange(e + 1, len as int)));
            }
            p = e + 1;
        }
    }
    assert(lines_of(v@.subrange(p as int, len as int)) =~= Seq::<Seq<char>>::empty());
    assert(string_views(r@) + Seq::<Seq<char>>::empty() =~= string_views(r@));
    r
}

/// What one line of GPU output holds, the numbers other than the index
/// still as text.
pub struct GpuFields {
    pub index: u32,
    pub utilization: String,
    pub memory_used: String,
    pub memory_total: String,
    pub name: String,
}

/// What a line of GPU output gives: nothing where it has fewer than five
/// fields; else the index (the first field, which must parse as a `u32`)
/// and the next four fields, each trimmed.
pub open spec fn gpu_line(line: Seq<char>) -> Result<
    Option<(u32, Seq<char>, Seq<char>, Seq<char>, Seq<char>)>,
    IntErrorKind,
> {
    let f = fields(line);
    if f.len() < 5 {
        Ok(None)
    } else {
        match parse_unsigned(trim(f[0]), u32::MAX as int) {
            Err(k) => Err(k),
            Ok(n) => Ok(Some((n as u32, trim(f[1]), trim(f[2]), trim(f[3]), trim(f[4])))),
        }
    }
}

/// The bounds of the first `want` fields of `v[p..]` (fewer where there
/// are fewer).
fn field_bounds(v: &Vec<char>, p: usize, want: usize) -> (r: Vec<(usize, usize)>)
    requires
        p <= v.len(),
    ensures
        r@.len() == if want < fields(v@.subrange(p as int, v@.len() as int)).len() {
            want as int
        } else {
            fields(v@.subrange(p as int, v@.len() as int)).len() as int
        },
        forall|i: int|
            #![trigger r@[i]]
            0 <= i < r@.len() ==> (r@[i].0 <= r@[i].1 <= v@.len()) && (v@.subrange(
                r@[i].0 as int,
                r@[i].1 as int,
            ) == fields(v@.subrange(p as int, v@.len() as int))[i]),
    decreases want,
{
    let len = v.len();
    let ghost s = v@.subrange(p as int, len as int);
    if want == 0 {
        return Vec::new();
    }
    let e = find_char(v, p, len, ',');
    proof {
        lemma_prefix_before_len(s, ',');
    }
    if e == len {
        let mut r: Vec<(usize, usize)> = Vec::new();
        r.push((p, e));
        assert(fields(s) == seq![s]);
        assert(v@.subrange(p as int, e as int) == s);
        return r;
    }
    let mut r = field_bounds(v, e + 1, want - 1);
    let ghost rest = r@;
    let ghost rs = v@.subrange(e + 1, len as int);
    proof {
        assert(s.skip(e - p + 1) =~= rs);
        assert(fields(s) == seq![v@.subrange(p as int, e as int)] + fields(rs));
    }
    r.insert(0, (p, e));
    assert(s == v@.subrange(p as int, v@.len() as int));
    assert forall|j: int| #![trigger r@[j]] 0 <= j < r@.len() implies (r@[j].0 <= r@[j].1
        <= v@.len()) && (v@.subrange(r@[j].0 as int, r@[j].1 as int) == fields(
        v@.subrange(p as int, v@.len() as int),
    )[j]) by {
        if j > 0 {
            assert(r@[j] == rest[j - 1]);
            assert(fields(s)[j] == fields(rs)[j - 1]);
        }
    }
    r
}

/// Reads one line of GPU output: `Ok(None)` where it has fewer than five
/// fields, the error of the index where that does not parse.
pub fn parse_gpu_line(line: &str) -> (r: Result<Option<GpuFields>, IntErrorKind>)
    ensures
        match gpu_line(line@) {
            Ok(None) => r matches Ok(None),
            Ok(Some((index, util, used, total, name))) => r matches Ok(Some(g)) && g.index
                == index && g.utilization@ == util && g.memory_used@ == used && g.memory_total@
                == total && g.name@ == name,
            Err(k) => r == Err::<Option<GpuFields>, IntErrorKind>(k),
        },
{
    let v = chars_of(line);
    assert(v@.subrange(0, v@.len() as int) =~= line@);
    let b = field_bounds(&v, 0, 5);
    if b.len() < 5 {
        return Ok(None);
    }
    let ghost f = fields(line@);
    assert(v@.subrange(b@[0].0 as int, b@[0].1 as int) == f[0]);
    assert(v@.subrange(b@[1].0 as int, b@[1].1 as int) == f[1]);
    assert(v@.subrange(b@[2].0 as int, b@[2].1 as int) == f[2]);
    assert(v@.subrange(b@[3].0 as int, b@[3].1 as int) == f[3]);
    assert(v@.subrange(b@[4].0 as int, b@[4].1 as int) == f[4]);
    let (a0, z0) = trim_bounds(&v, b[0].0, b[0].1);
    let index = match parse_unsigned_exec(&v, a0, z0, u32::MAX as u64) {
        Err(k) => {
            return Err(k);
        },
        Ok(n) => {
            proof {
                crate::text::lemma_bounded_parse(v@.subrange(a0 as int, z0 as int), u32::MAX as int);
            }
            n as u32
        },
    };
    let (a1, z1) = trim_bounds(&v, b[1].0, b[1].1);
    let (a2, z2) = trim_bounds(&v, b[2].0, b[2].1);
    let (a3, z3) = trim_bounds(&v, b[3].0, b[3].1);
    let (a4, z4) = trim_bounds(&v, b[4].0, b[4].1);
    Ok(
        Some(
            GpuFields {
                index,
                utilization: string_of(&v, a1, z1),
                memory_used: string_of(&v, a2, z2),
                memory_total: string_of(&v, a3, z3),
                name: string_of(&v, a4, z4),
            },
        ),
    )
}

} // verus!
