//! Character-sequence utilities shared by the frame reassembler, the
//! translator, and the transcript: conversions between `str`/`String` and
//! `Vec<char>`, substring matching, line scanning, and literal replacement.

use vstd::prelude::*;

verus! {

use vstd::string::StrSliceExecFns;

/// The characters of `s`, in order.
pub fn to_chars(s: &str) -> (r: Vec<char>)
    ensures
        r@ == s@,
{
    let n = s.unicode_len();
    let mut r: Vec<char> = Vec::new();
    let mut i: usize = 0;
    while i < n
        invariant
            n == s@.len(),
            i <= n,
            r@ == s@.subrange(0, i as int),
        decreases n - i,
    {
        let c = s.get_char(i);
        r.push(c);
        i = i + 1;
        proof {
            assert(r@ =~= s@.subrange(0, i as int));
        }
    }
    proof {
        assert(r@ =~= s@);
    }
    r
}

/// Relies on `String: FromIterator<char>`: collecting characters builds the
/// string of exactly those characters, in order.
#[verifier::external_body]
pub fn from_chars(v: &Vec<char>) -> (r: String)
    ensures
        r@ == v@,
{
    v.iter().collect()
}

/// Whether `pat` occurs in `v` starting at index `at`.
pub open spec fn spec_matches_at(v: Seq<char>, at: int, pat: Seq<char>) -> bool {
    &&& 0 <= at
    &&& at + pat.len() <= v.len()
    &&& v.subrange(at, at + pat.len() as int) == pat
}

/// Compare the slice of `v` starting at `at` against `pat`.
pub fn matches_at(v: &Vec<char>, at: usize, pat: &Vec<char>) -> (r: bool)
    ensures
        r == spec_matches_at(v@, at as int, pat@),
{
    if at > v.len() || pat.len() > v.len() - at {
        proof {
            assert(!spec_matches_at(v@, at as int, pat@));
        }
        return false;
    }
    let mut i: usize = 0;
    while i < pat.len()
        invariant
            at + pat@.len() <= v@.len(),
            v@.len() <= usize::MAX,
            i <= pat@.len(),
            forall|k: int| 0 <= k < i ==> v@[at + k] == pat@[k],
        decreases pat@.len() - i,
    {
        if v[at + i] != pat[i] {
            proof {
                assert(v@.subrange(at as int, at + pat@.len() as int)[i as int] != pat@[i as int]);
            }
            return false;
        }
        i = i + 1;
    }
    proof {
        assert(v@.subrange(at as int, at + pat@.len() as int) =~= pat@);
    }
    true
}

/// Whether two character vectors hold the same text.
pub fn chars_eq(v: &Vec<char>, w: &Vec<char>) -> (r: bool)
    ensures
        r == (v@ == w@),
{
    if v.len() != w.len() {
        proof {
            assert(v@ != w@);
        }
        return false;
    }
    let r = matches_at(v, 0, w);
    proof {
        if r {
            assert(v@.subrange(0, w@.len() as int) =~= v@);
        } else {
            if v@ == w@ {
                assert(v@.subrange(0, w@.len() as int) =~= w@);
                assert(false);
            }
        }
    }
    r
}

/// The characters of `v` from index `a` (inclusive) to `b` (exclusive).
pub fn sub_vec(v: &Vec<char>, a: usize, b: usize) -> (r: Vec<char>)
    requires
        a <= b <= v@.len(),
    ensures
        r@ == v@.subrange(a as int, b as int),
{
    let mut r: Vec<char> = Vec::new();
    let mut i: usize = a;
    while i < b
        invariant
            a <= i <= b <= v@.len(),
            r@ == v@.subrange(a as int, i as int),
        decreases b - i,
    {
        r.push(v[i]);
        i = i + 1;
        proof {
            assert(r@ =~= v@.subrange(a as int, i as int));
        }
    }
    r
}

/// Append the characters of `src` to `dst`.
pub fn append_vec(dst: &mut Vec<char>, src: &Vec<char>)
    ensures
        final(dst)@ == old(dst)@ + src@,
{
    let ghost d0 = dst@;
    let mut i: usize = 0;
    proof {
        assert(dst@ =~= d0 + src@.subrange(0, 0));
    }
    while i < src.len()
        invariant
            i <= src@.len(),
            dst@ == d0 + src@.subrange(0, i as int),
        decreases src@.len() - i,
    {
        dst.push(src[i]);
        i = i + 1;
        proof {
            assert(dst@ =~= d0 + src@.subrange(0, i as int));
        }
    }
    proof {
        assert(dst@ =~= d0 + src@);
    }
}

/// The index of the first `'\n'` at or after `from`, or the length of `s`
/// when no newline follows.
pub open spec fn line_end(s: Seq<char>, from: int) -> int
    recommends
        0 <= from <= s.len(),
    decreases s.len() - from when 0 <= from <= s.len()
{
    if from >= s.len() {
        s.len() as int
    } else if s[from] == '\n' {
        from
    } else {
        line_end(s, from + 1)
    }
}

pub proof fn lemma_line_end_bounds(s: Seq<char>, from: int)
    requires
        0 <= from <= s.len(),
    ensures
        from <= line_end(s, from) <= s.len(),
        line_end(s, from) < s.len() ==> s[line_end(s, from)] == '\n',
        forall|k: int| from <= k < line_end(s, from) ==> s[k] != '\n',
    decreases s.len() - from,
{
    if from < s.len() && s[from] != '\n' {
        lemma_line_end_bounds(s, from + 1);
    }
}

/// Scanning from a position with no earlier newline reaches the same line end.
pub proof fn lemma_line_end_skip(s: Seq<char>, from: int, mid: int)
    requires
        0 <= from <= mid <= s.len(),
        forall|k: int| from <= k < mid ==> s[k] != '\n',
    ensures
        line_end(s, from) == line_end(s, mid),
    decreases mid - from,
{
    if from < mid {
        lemma_line_end_skip(s, from + 1, mid);
    }
}

/// The index of the first newline of `v` at or after `from`, or `v.len()`.
pub fn find_line_end(v: &Vec<char>, from: usize) -> (r: usize)
    requires
        from <= v@.len(),
    ensures
        r == line_end(v@, from as int),
{
    let mut i: usize = from;
    while i < v.len()
        invariant
            from <= i <= v@.len(),
            forall|k: int| from <= k < i ==> v@[k] != '\n',
        decreases v@.len() - i,
    {
        if v[i] == '\n' {
            proof {
                lemma_line_end_skip(v@, from as int, i as int);
            }
            return i;
        }
        i = i + 1;
    }
    proof {
        lemma_line_end_skip(v@, from as int, i as int);
    }
    i
}

/// `s` with every non-overlapping occurrence of `pat`, found left to right,
/// replaced by `rep` — the behaviour of `str::replace`.
pub open spec fn spec_replace_all(s: Seq<char>, pat: Seq<char>, rep: Seq<char>) -> Seq<char>
    recommends
        pat.len() > 0,
    decreases s.len() when pat.len() > 0
{
    if s.len() < pat.len() {
        s
    } else if s.subrange(0, pat.len() as int) == pat {
        rep + spec_replace_all(s.skip(pat.len() as int), pat, rep)
    } else {
        seq![s[0]] + spec_replace_all(s.skip(1), pat, rep)
    }
}

/// Replacement examined from an arbitrary start: what remains of `s` at `i`.
proof fn lemma_replace_all_step(s: Seq<char>, pat: Seq<char>, rep: Seq<char>, i: int)
    requires
        pat.len() > 0,
        0 <= i <= s.len(),
    ensures
        spec_matches_at(s, i, pat) ==> spec_replace_all(s.skip(i), pat, rep) == rep
            + spec_replace_all(s.skip(i + pat.len()), pat, rep),
        (!spec_matches_at(s, i, pat) && i < s.len()) ==> spec_replace_all(s.skip(i), pat, rep)
            == seq![s[i]] + spec_replace_all(s.skip(i + 1), pat, rep),
{
    let t = s.skip(i);
    if spec_matches_at(s, i, pat) {
        assert(t.subrange(0, pat.len() as int) =~= s.subrange(i, i + pat.len() as int));
        assert(t.skip(pat.len() as int) =~= s.skip(i + pat.len()));
    } else if i < s.len() {
        if t.len() >= pat.len() && t.subrange(0, pat.len() as int) == pat {
            assert(s.subrange(i, i + pat.len() as int) =~= t.subrange(0, pat.len() as int));
            assert(false);
        }
        assert(t.skip(1) =~= s.skip(i + 1));
        assert(t[0] == s[i]);
    }
}

/// `v` with every occurrence of `pat` replaced by `rep`, left to right.
pub fn replace_all(v: &Vec<char>, pat: &Vec<char>, rep: &Vec<char>) -> (r: Vec<char>)
    requires
        pat@.len() > 0,
    ensures
        r@ == spec_replace_all(v@, pat@, rep@),
{
    let mut out: Vec<char> = Vec::new();
    let mut i: usize = 0;
    proof {
        assert(v@.skip(0) =~= v@);
        assert(out@ + v@ =~= v@);
    }
    while i < v.len()
        invariant
            pat@.len() > 0,
            i <= v@.len(),
            spec_replace_all(v@, pat@, rep@) == out@ + spec_replace_all(
                v@.skip(i as int),
                pat@,
                rep@,
            ),
        decreases v@.len() - i,
    {
        let ghost i0 = i as int;
        let ghost out0 = out@;
        proof {
            lemma_replace_all_step(v@, pat@, rep@, i0);
        }
        if matches_at(v, i, pat) {
            let mut j: usize = 0;
            while j < rep.len()
                invariant
                    j <= rep@.len(),
                    out@ == out0 + rep@.subrange(0, j as int),
                decreases rep@.len() - j,
            {
                out.push(rep[j]);
                j = j + 1;
                proof {
                    assert(out@ =~= out0 + rep@.subrange(0, j as int));
                }
            }
            i = i + pat.len();
            proof {
                let rest = spec_replace_all(v@.skip(i as int), pat@, rep@);
                assert(out@ =~= out0 + rep@);
                assert(spec_replace_all(v@.skip(i0), pat@, rep@) == rep@ + rest);
                assert((out0 + rep@) + rest =~= out0 + (rep@ + rest));
            }
        } else {
            out.push(v[i]);
            i = i + 1;
            proof {
                let rest = spec_replace_all(v@.skip(i as int), pat@, rep@);
                assert(spec_replace_all(v@.skip(i0), pat@, rep@) == seq![v@[i0]] + rest);
                assert((out0 + seq![v@[i0]]) + rest =~= out0 + (seq![v@[i0]] + rest));
                assert(out@ =~= out0 + seq![v@[i0]]);
            }
        }
    }
    proof {
        assert(v@.skip(i as int) =~= Seq::<char>::empty());
        assert(out@ + Seq::<char>::empty() =~= out@);
    }
    out
}

/// Plain whitespace: space, tab, and the line-break characters.
pub open spec fn is_space(c: char) -> bool {
    c == ' ' || c == '\t' || c == '\n' || c == '\r'
}

/// `s` without its leading whitespace.
pub open spec fn spec_ltrim(s: Seq<char>) -> Seq<char>
    decreases s.len(),
{
    if s.len() == 0 {
        s
    } else if is_space(s[0]) {
        spec_ltrim(s.skip(1))
    } else {
        s
    }
}

/// `s` without its trailing whitespace.
pub open spec fn spec_rtrim(s: Seq<char>) -> Seq<char>
    decreases s.len(),
{
    if s.len() == 0 {
        s
    } else if is_space(s.last()) {
        spec_rtrim(s.drop_last())
    } else {
        s
    }
}

/// `s` without surrounding whitespace.
pub open spec fn spec_trim(s: Seq<char>) -> Seq<char> {
    spec_rtrim(spec_ltrim(s))
}

proof fn lemma_ltrim_skip(s: Seq<char>, i: int)
    requires
        0 <= i <= s.len(),
        forall|k: int| 0 <= k < i ==> is_space(s[k]),
    ensures
        spec_ltrim(s) == spec_ltrim(s.skip(i)),
    decreases i,
{
    if i > 0 {
        assert(is_space(s[0]));
        assert(s.skip(1).skip(i - 1) =~= s.skip(i));
        lemma_ltrim_skip(s.skip(1), i - 1);
    } else {
        assert(s.skip(0) =~= s);
    }
}

proof fn lemma_rtrim_take(s: Seq<char>, j: int)
    requires
        0 <= j <= s.len(),
        forall|k: int| j <= k < s.len() ==> is_space(s[k]),
    ensures
        spec_rtrim(s) == spec_rtrim(s.take(j)),
    decreases s.len() - j,
{
    if j < s.len() {
        assert(is_space(s.last()));
        assert(s.drop_last() =~= s.take(s.len() - 1));
        assert(s.take(s.len() - 1).take(j) =~= s.take(j));
        lemma_rtrim_take(s.take(s.len() - 1), j);
    } else {
        assert(s.take(j) =~= s);
    }
}

/// `v` without surrounding spaces, tabs and line breaks.
pub fn trim_chars(v: &Vec<char>) -> (r: Vec<char>)
    ensures
        r@ == spec_trim(v@),
{
    let mut start: usize = 0;
    while start < v.len() && is_space_exec(v[start])
        invariant
            start <= v@.len(),
            forall|k: int| 0 <= k < start ==> is_space(v@[k]),
        decreases v@.len() - start,
    {
        start = start + 1;
    }
    proof {
        lemma_ltrim_skip(v@, start as int);
        if start < v@.len() {
            assert(spec_ltrim(v@.skip(start as int)) == v@.skip(start as int));
        } else {
            assert(v@.skip(start as int) =~= Seq::<char>::empty());
        }
    }
    let mut end: usize = v.len();
    while end > start && is_space_exec(v[end - 1])
        invariant
            start <= end <= v@.len(),
            forall|k: int| end <= k < v@.len() ==> is_space(v@[k]),
        decreases end,
    {
        end = end - 1;
    }
    let r = sub_vec(v, start, end);
    proof {
        let lt = v@.skip(start as int);
        // whatever trailed `end` in `v` trails `end - start` in `lt`
        assert(forall|k: int| end - start <= k < lt.len() ==> is_space(lt[k]));
        lemma_rtrim_take(lt, end - start);
        assert(lt.take(end - start) =~= v@.subrange(start as int, end as int));
        if end > start {
            assert(!is_space(lt.take(end - start).last()));
            assert(spec_rtrim(lt.take(end - start)) == lt.take(end - start));
        } else {
            assert(lt.take(end - start) =~= Seq::<char>::empty());
        }
    }
    r
}

/// Plain whitespace test on a character.
pub fn is_space_exec(c: char) -> (r: bool)
    ensures
        r == is_space(c),
{
    c == ' ' || c == '\t' || c == '\n' || c == '\r'
}

} // verus!
