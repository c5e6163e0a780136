//! The pure heart of the code-to-prompt feature: settings, the fenced code
//! block a file becomes, the label of a path, which files the filters
//! admit, and the undefined variables of a template. Walking directories,
//! rendering the template and the clipboard live with the runtime host.

use vstd::prelude::*;

verus! {

use vstd::string::StringExecFns;
use crate::text::{
    line_end,
    lemma_line_end_bounds,
    find_line_end,
    sub_vec,
    append_vec,
    to_chars,
    from_chars,
    chars_eq,
    spec_trim,
    trim_chars,
    is_space,
    is_space_exec,
};

/// Settings of one code-to-prompt run over a codebase directory.
#[derive(Debug, Clone)]
pub struct Code2Prompt {
    /// Path to the codebase directory.
    pub path: String,
    /// Comma-separated file extensions to keep, when present.
    pub filter: Option<String>,
    /// Comma-separated file extensions to drop.
    pub exclude: Option<String>,
    /// Comma-separated file names to drop.
    pub exclude_files: Option<String>,
    /// Comma-separated folder paths to drop.
    pub exclude_folders: Option<String>,
    /// Whether to count the tokens of the rendered prompt.
    pub tokens: bool,
    /// The tokenizer used for the count, when one is named.
    pub encoding: Option<String>,
    /// Whether to include the pending repository diff.
    pub diff: bool,
    /// Whether to number the lines of each file.
    pub line_number: bool,
}

impl Code2Prompt {
    /// A run over the given directory, everything else at its default.
    pub fn new(path: &str) -> (r: Code2Prompt)
        ensures
            r.path@ == path@,
            r.filter is None,
            r.exclude is None,
            r.exclude_files is None,
            r.exclude_folders is None,
            !r.tokens,
            r.encoding is None,
            !r.diff,
            !r.line_number,
    {
        Code2Prompt {
            path: String::from_str(path),
            filter: None,
            exclude: None,
            exclude_files: None,
            exclude_folders: None,
            tokens: false,
            encoding: None,
            diff: false,
            line_number: false,
        }
    }
}

impl Default for Code2Prompt {
    /// An empty path and every option off.
    fn default() -> (r: Code2Prompt)
        ensures
            r.path@ == Seq::<char>::empty(),
            r.filter is None,
            !r.line_number,
    {
        let r = Code2Prompt::new("");
        proof {
            reveal_strlit("");
            assert(r.path@ =~= Seq::<char>::empty());
        }
        r
    }
}

/// The lines of a text, as `str::lines` yields them: split at each line
/// feed, a carriage return before it removed, no final empty line.
pub open spec fn spec_lines(s: Seq<char>) -> Seq<Seq<char>>
    decreases s.len(),
    via spec_lines_decreases
{
    if s.len() == 0 {
        Seq::<Seq<char>>::empty()
    } else {
        let le = line_end(s, 0);
        let raw = s.subrange(0, le);
        let line = if raw.len() > 0 && raw.last() == '\r' {
            raw.drop_last()
        } else {
            raw
        };
        if le >= s.len() {
            seq![line]
        } else {
            seq![line] + spec_lines(s.skip(le + 1))
        }
    }
}

#[via_fn]
proof fn spec_lines_decreases(s: Seq<char>) {
    lemma_line_end_bounds(s, 0);
}

/// The character of a decimal digit value.
pub open spec fn digit_char(d: int) -> char {
    ((48 + d) as u8) as char
}

/// The decimal numeral of `n`.
pub open spec fn spec_dec(n: nat) -> Seq<char>
    decreases n,
{
    if n < 10 {
        seq![digit_char(n as int)]
    } else {
        spec_dec(n / 10).push(digit_char((n % 10) as int))
    }
}

/// The decimal numeral of `n`, executably.
pub fn dec_chars(n: usize) -> (r: Vec<char>)
    ensures
        r@ == spec_dec(n as nat),
    decreases n,
{
    if n < 10 {
        let mut r: Vec<char> = Vec::new();
        r.push(((48 + n) as u8) as char);
        proof {
            assert(r@ =~= spec_dec(n as nat));
        }
        r
    } else {
        let mut r = dec_chars(n / 10);
        r.push(((48 + n % 10) as u8) as char);
        r
    }
}

/// A numeral padded on the left to the fixed gutter width of four.
pub open spec fn spec_pad4(s: Seq<char>) -> Seq<char> {
    if s.len() >= 4 {
        s
    } else if s.len() == 3 {
        seq![' '] + s
    } else if s.len() == 2 {
        seq![' ', ' '] + s
    } else if s.len() == 1 {
        seq![' ', ' ', ' '] + s
    } else {
        seq![' ', ' ', ' ', ' '] + s
    }
}

/// Pad a numeral to the gutter width.
fn pad4(v: Vec<char>) -> (r: Vec<char>)
    ensures
        r@ == spec_pad4(v@),
{
    if v.len() >= 4 {
        return v;
    }
    let mut r: Vec<char> = Vec::new();
    let mut k: usize = v.len();
    while k < 4
        invariant
            v@.len() <= k <= 4,
            r@.len() == k - v@.len(),
            forall|i: int| 0 <= i < r@.len() ==> r@[i] == ' ',
        decreases 4 - k,
    {
        r.push(' ');
        k = k + 1;
    }
    append_vec(&mut r, &v);
    proof {
        assert(r@ =~= spec_pad4(v@));
    }
    r
}

/// The numbered gutter form of the lines, counting from `k`: each line as
/// `{:4} | line` with a trailing line feed.
pub open spec fn spec_numbered_from(lines: Seq<Seq<char>>, k: nat) -> Seq<char>
    decreases lines.len(),
{
    if lines.len() == 0 {
        Seq::<char>::empty()
    } else {
        spec_pad4(spec_dec(k)) + " | "@ + lines[0] + "\n"@ + spec_numbered_from(
            lines.skip(1),
            k + 1,
        )
    }
}

/// The body of a wrapped block: the code itself, or its numbered form.
pub open spec fn spec_block_body(code: Seq<char>, line_numbers: bool) -> Seq<char> {
    if line_numbers {
        spec_numbered_from(spec_lines(code), 1)
    } else {
        code
    }
}

/// The seven-backtick fence.
pub open spec fn spec_fence() -> Seq<char> {
    seq!['`', '`', '`', '`', '`', '`', '`']
}

/// The fenced code block of a file: the fence and the extension label, the
/// body, and the closing fence.
pub open spec fn spec_wrap_code_block(
    code: Seq<char>,
    extension: Seq<char>,
    line_numbers: bool,
) -> Seq<char> {
    spec_fence() + extension + "\n"@ + spec_block_body(code, line_numbers) + "\n"@ + spec_fence()
}

/// The lines of the suffix of `s` at a line start `pos`, unfolded once.
proof fn lemma_lines_unfold_at(s: Seq<char>, pos: int)
    requires
        0 <= pos < s.len(),
    ensures
        ({
            let le = line_end(s, pos);
            let raw = s.subrange(pos, le);
            let line = if raw.len() > 0 && raw.last() == '\r' {
                raw.drop_last()
            } else {
                raw
            };
            spec_lines(s.skip(pos)) == if le >= s.len() {
                seq![line]
            } else {
                seq![line] + spec_lines(s.skip(le + 1))
            }
        }),
{
    let t = s.skip(pos);
    crate::frame::lemma_line_end_shift(s, pos);
    lemma_line_end_bounds(s, pos);
    let le = line_end(s, pos);
    assert(t.subrange(0, le - pos) =~= s.subrange(pos, le));
    if le < s.len() {
        assert(t.skip(le - pos + 1) =~= s.skip(le + 1));
    }
    let raw = s.subrange(pos, le);
    if raw.len() > 0 && raw.last() == '\r' {
        assert(t.subrange(0, le - pos).drop_last() == raw.drop_last());
    }
}

/// Wrap a file's text in a fenced, labelled, optionally numbered block.
pub fn wrap_code_block(code: &str, extension: &str, line_numbers: bool) -> (r: String)
    requires
        code@.len() < usize::MAX,
    ensures
        r@ == spec_wrap_code_block(code@, extension@, line_numbers),
{
    let mut out: Vec<char> = Vec::new();
    let fence = fence_chars();
    append_vec(&mut out, &fence);
    let ext = to_chars(extension);
    append_vec(&mut out, &ext);
    push_newline(&mut out);
    let cv = to_chars(code);
    if line_numbers {
        let ghost cs = code@;
        let mut pos: usize = 0;
        let mut num: usize = 1;
        let ghost head = spec_fence() + extension@ + "\n"@;
        proof {
            assert(out@ =~= head);
            assert(cs.skip(0) =~= cs);
            assert(out@ + Seq::<char>::empty() =~= out@);
        }
        while pos < cv.len()
            invariant
                cv@ == cs,
                cs.len() < usize::MAX,
                pos <= cs.len(),
                1 <= num <= pos + 1,
                head + spec_numbered_from(spec_lines(cs), 1) == out@ + spec_numbered_from(
                    spec_lines(cs.skip(pos as int)),
                    num as nat,
                ),
            decreases cs.len() - pos,
        {
            let ghost out0 = out@;
            proof {
                lemma_lines_unfold_at(cs, pos as int);
                lemma_line_end_bounds(cs, pos as int);
            }
            let le = find_line_end(&cv, pos);
            let line_end_idx = if le > pos && cv[le - 1] == '\r' {
                le - 1
            } else {
                le
            };
            let ghost raw = cs.subrange(pos as int, le as int);
            let ghost line = cs.subrange(pos as int, line_end_idx as int);
            proof {
                if raw.len() > 0 && raw.last() == '\r' {
                    assert(line =~= raw.drop_last());
                } else {
                    assert(line =~= raw);
                }
            }
            let numeral = pad4(dec_chars(num));
            append_vec(&mut out, &numeral);
            push_gutter(&mut out);
            let line_v = sub_vec(&cv, pos, line_end_idx);
            append_vec(&mut out, &line_v);
            push_newline(&mut out);
            proof {
                let piece = spec_pad4(spec_dec(num as nat)) + " | "@ + line + "\n"@;
                assert(out@ =~= out0 + piece);
            }
            let next_pos = if le < cv.len() {
                le + 1
            } else {
                le
            };
            proof {
                let rest = spec_numbered_from(
                    spec_lines(cs.skip(next_pos as int)),
                    num as nat + 1,
                );
                let piece = spec_pad4(spec_dec(num as nat)) + " | "@ + line + "\n"@;
                if le < cv.len() {
                    assert(spec_lines(cs.skip(pos as int)) == seq![line] + spec_lines(
                        cs.skip(le + 1),
                    ));
                    assert((seq![line] + spec_lines(cs.skip(le + 1))).skip(1) =~= spec_lines(
                        cs.skip(le + 1),
                    ));
                    assert((seq![line] + spec_lines(cs.skip(le + 1)))[0] == line);
                } else {
                    assert(spec_lines(cs.skip(pos as int)) == seq![line]);
                    assert(seq![line].skip(1) =~= Seq::<Seq<char>>::empty());
                    assert(cs.skip(next_pos as int) =~= Seq::<char>::empty());
                }
                assert(spec_numbered_from(spec_lines(cs.skip(pos as int)), num as nat) == piece
                    + rest);
                assert((out0 + piece) + rest =~= out0 + (piece + rest));
            }
            pos = next_pos;
            num = num + 1;
        }
        proof {
            assert(cs.skip(pos as int) =~= Seq::<char>::empty());
            assert(out@ + Seq::<char>::empty() =~= out@);
            assert(out@ =~= head + spec_numbered_from(spec_lines(cs), 1));
        }
    } else {
        append_vec(&mut out, &cv);
    }
    push_newline(&mut out);
    let fence2 = fence_chars();
    append_vec(&mut out, &fence2);
    proof {
        assert(out@ =~= spec_wrap_code_block(code@, extension@, line_numbers));
    }
    from_chars(&out)
}

/// The seven-backtick fence, executably.
fn fence_chars() -> (r: Vec<char>)
    ensures
        r@ == spec_fence(),
{
    let mut r: Vec<char> = Vec::new();
    let mut k: usize = 0;
    while k < 7
        invariant
            k <= 7,
            r@.len() == k,
            forall|i: int| 0 <= i < r@.len() ==> r@[i] == '`',
        decreases 7 - k,
    {
        r.push('`');
        k = k + 1;
    }
    proof {
        assert(r@ =~= spec_fence());
    }
    r
}

/// Append a line feed.
fn push_newline(out: &mut Vec<char>)
    ensures
        final(out)@ == old(out)@ + "\n"@,
{
    let nl = to_chars("\n");
    append_vec(out, &nl);
}

/// Append the gutter separator.
fn push_gutter(out: &mut Vec<char>)
    ensures
        final(out)@ == old(out)@ + " | "@,
{
    let g = to_chars(" | ");
    append_vec(out, &g);
}

/// A path without its trailing separators.
pub open spec fn spec_strip_seps(s: Seq<char>) -> Seq<char>
    decreases s.len(),
{
    if s.len() > 0 && s.last() == '/' {
        spec_strip_seps(s.drop_last())
    } else {
        s
    }
}

proof fn lemma_strip_seps_len(s: Seq<char>)
    ensures
        spec_strip_seps(s).len() <= s.len(),
    decreases s.len(),
{
    if s.len() > 0 && s.last() == '/' {
        lemma_strip_seps_len(s.drop_last());
    }
}

proof fn lemma_strip_seps_take(s: Seq<char>, e: int)
    requires
        0 <= e <= s.len(),
        forall|k: int| e <= k < s.len() ==> s[k] == '/',
    ensures
        spec_strip_seps(s) == spec_strip_seps(s.take(e)),
    decreases s.len() - e,
{
    if e < s.len() {
        assert(s.last() == '/');
        assert(s.drop_last() =~= s.take(s.len() - 1));
        assert(s.take(s.len() - 1).take(e) =~= s.take(e));
        lemma_strip_seps_take(s.take(s.len() - 1), e);
    } else {
        assert(s.take(e) =~= s);
    }
}

/// The index where the last component of a separator-free-tailed path
/// starts: right after its last separator.
pub open spec fn spec_comp_start(t: Seq<char>) -> int
    decreases t.len(),
{
    if t.len() == 0 {
        0
    } else if t.last() == '/' {
        t.len() as int
    } else {
        spec_comp_start(t.drop_last())
    }
}

proof fn lemma_comp_start_at(t: Seq<char>, s: int)
    requires
        0 <= s <= t.len(),
        forall|k: int| s <= k < t.len() ==> t[k] != '/',
        s > 0 ==> t[s - 1] == '/',
    ensures
        spec_comp_start(t) == s,
    decreases t.len(),
{
    if t.len() == 0 {
    } else if t.last() == '/' {
        assert(s == t.len());
    } else {
        assert(s < t.len());
        assert(t.drop_last() =~= t.take(t.len() - 1));
        lemma_comp_start_at(t.drop_last(), s);
    }
}

/// The file name a path denotes, if any: the last real component, after
/// trailing separators and trailing current-directory markers are ignored;
/// an empty path, a root, or a path ending in the parent marker has none.
pub open spec fn spec_file_name(s: Seq<char>) -> Option<Seq<char>>
    decreases s.len(),
    via spec_file_name_decreases
{
    let t = spec_strip_seps(s);
    if t.len() == 0 {
        None
    } else if t.last() == '.' && (t.len() == 1 || t[t.len() - 2] == '/') {
        spec_file_name(t.drop_last())
    } else {
        let comp = t.skip(spec_comp_start(t));
        if comp == seq!['.', '.'] {
            None
        } else {
            Some(comp)
        }
    }
}

#[via_fn]
proof fn spec_file_name_decreases(s: Seq<char>) {
    lemma_strip_seps_len(s);
}

/// The file name of the prefix of `v` of length `end`, as a fresh vector.
#[verifier::rlimit(40)]
fn file_name_from(v: &Vec<char>, end: usize) -> (r: Option<Vec<char>>)
    requires
        end <= v@.len(),
    ensures
        match r {
            Some(n) => spec_file_name(v@.take(end as int)) == Some(n@),
            None => spec_file_name(v@.take(end as int)) is None,
        },
    decreases end,
{
    let ghost s = v@.take(end as int);
    let mut e: usize = end;
    while e > 0 && v[e - 1] == '/'
        invariant
            e <= end <= v@.len(),
            forall|k: int| e <= k < end ==> v@[k] == '/',
        decreases e,
    {
        e = e - 1;
    }
    proof {
        assert(forall|k: int| e <= k < s.len() ==> s[k] == v@[k] && s[k] == '/');
        lemma_strip_seps_take(s, e as int);
        assert(s.take(e as int) =~= v@.take(e as int));
        if e > 0 {
            assert(v@.take(e as int).last() == v@[e - 1]);
            assert(spec_strip_seps(v@.take(e as int)) == v@.take(e as int));
        }
    }
    if e == 0 {
        proof {
            assert(v@.take(0) =~= Seq::<char>::empty());
            assert(spec_strip_seps(s).len() == 0);
        }
        return None;
    }
    let ghost t = v@.take(e as int);
    if v[e - 1] == '.' && (e == 1 || v[e - 2] == '/') {
        proof {
            assert(t.last() == '.');
            assert(t.drop_last() =~= v@.take(e as int - 1));
        }
        return file_name_from(v, e - 1);
    }
    let mut cstart: usize = e;
    while cstart > 0 && v[cstart - 1] != '/'
        invariant
            cstart <= e <= v@.len(),
            forall|k: int| cstart <= k < e ==> v@[k] != '/',
        decreases cstart,
    {
        cstart = cstart - 1;
    }
    proof {
        assert(forall|k: int| cstart <= k < t.len() ==> t[k] == v@[k]);
        if cstart > 0 {
            assert(t[cstart - 1] == v@[cstart - 1]);
        }
        lemma_comp_start_at(t, cstart as int);
        assert(t.skip(cstart as int) =~= v@.subrange(cstart as int, e as int));
    }
    let comp = sub_vec(v, cstart, e);
    let dotdot = to_chars("..");
    proof {
        reveal_strlit("..");
        assert(dotdot@ =~= seq!['.', '.']);
    }
    if chars_eq(&comp, &dotdot) {
        None
    } else {
        Some(comp)
    }
}

/// The directory or file name used as a tree label: the path's file name,
/// or — for the current directory, a root, or a parent marker — the path
/// text itself.
pub fn label(p: &str) -> (r: String)
    ensures
        r@ == match spec_file_name(p@) {
            Some(n) => n,
            None => p@,
        },
{
    let v = to_chars(p);
    proof {
        assert(v@.take(v@.len() as int) =~= v@);
    }
    match file_name_from(&v, v.len()) {
        Some(n) => from_chars(&n),
        None => from_chars(&v),
    }
}

/// The index of the first comma at or after `from`, or the length of `s`.
pub open spec fn comma_end(s: Seq<char>, from: int) -> int
    recommends
        0 <= from <= s.len(),
    decreases s.len() - from when 0 <= from <= s.len()
{
    if from >= s.len() {
        s.len() as int
    } else if s[from] == ',' {
        from
    } else {
        comma_end(s, from + 1)
    }
}

proof fn lemma_comma_end_bounds(s: Seq<char>, from: int)
    requires
        0 <= from <= s.len(),
    ensures
        from <= comma_end(s, from) <= s.len(),
        comma_end(s, from) < s.len() ==> s[comma_end(s, from)] == ',',
        forall|k: int| from <= k < comma_end(s, from) ==> s[k] != ',',
    decreases s.len() - from,
{
    if from < s.len() && s[from] != ',' {
        lemma_comma_end_bounds(s, from + 1);
    }
}

proof fn lemma_comma_end_skip(s: Seq<char>, from: int, mid: int)
    requires
        0 <= from <= mid <= s.len(),
        forall|k: int| from <= k < mid ==> s[k] != ',',
    ensures
        comma_end(s, from) == comma_end(s, mid),
    decreases mid - from,
{
    if from < mid {
        lemma_comma_end_skip(s, from + 1, mid);
    }
}

/// The comma-separated pieces of a list option, each trimmed — exactly the
/// terms the filters compare against. An empty text yields one empty term.
pub open spec fn spec_csv(s: Seq<char>) -> Seq<Seq<char>>
    decreases s.len(),
    via spec_csv_decreases
{
    let ce = comma_end(s, 0);
    if ce >= s.len() {
        seq![spec_trim(s)]
    } else {
        seq![spec_trim(s.subrange(0, ce))] + spec_csv(s.skip(ce + 1))
    }
}

#[via_fn]
proof fn spec_csv_decreases(s: Seq<char>) {
    lemma_comma_end_bounds(s, 0);
}

proof fn lemma_csv_unfold_at(s: Seq<char>, pos: int)
    requires
        0 <= pos <= s.len(),
    ensures
        ({
            let ce = comma_end(s, pos);
            spec_csv(s.skip(pos)) == if ce >= s.len() {
                seq![spec_trim(s.subrange(pos, s.len() as int))]
            } else {
                seq![spec_trim(s.subrange(pos, ce))] + spec_csv(s.skip(ce + 1))
            }
        }),
{
    let t = s.skip(pos);
    let ce = comma_end(s, pos);
    lemma_comma_end_bounds(s, pos);
    assert(forall|k: int| 0 <= k < ce - pos ==> t[k] == s[pos + k]);
    lemma_comma_end_skip(t, 0, ce - pos);
    if ce < s.len() {
        assert(t[ce - pos] == s[ce]);
        assert(comma_end(t, ce - pos) == ce - pos);
        assert(t.subrange(0, ce - pos) =~= s.subrange(pos, ce));
        assert(t.skip(ce - pos + 1) =~= s.skip(ce + 1));
    } else {
        assert(comma_end(t, ce - pos) == t.len());
        assert(t.subrange(0, t.len() as int) =~= s.subrange(pos, s.len() as int));
    }
}

/// Split a comma-separated list into its trimmed terms.
pub fn split_csv(s: &str) -> (r: Vec<Vec<char>>)
    ensures
        r@.map_values(|x: Vec<char>| x@) == spec_csv(s@),
{
    let v = to_chars(s);
    let mut out: Vec<Vec<char>> = Vec::new();
    let mut pos: usize = 0;
    let mut done = false;
    proof {
        assert(v@.skip(0) =~= v@);
    }
    while !done
        invariant
            pos <= v@.len(),
            v@ == s@,
            !done ==> spec_csv(s@) == out@.map_values(|x: Vec<char>| x@) + spec_csv(
                v@.skip(pos as int),
            ),
            done ==> spec_csv(s@) == out@.map_values(|x: Vec<char>| x@),
        decreases v@.len() - pos, (if done { 0int } else { 1int }),
    {
        let ghost out0 = out@.map_values(|x: Vec<char>| x@);
        let ghost pos0 = pos as int;
        proof {
            lemma_csv_unfold_at(v@, pos0);
            lemma_comma_end_bounds(v@, pos0);
        }
        let mut ce: usize = pos;
        while ce < v.len() && v[ce] != ','
            invariant
                pos <= ce <= v@.len(),
                forall|k: int| pos <= k < ce ==> v@[k] != ',',
            decreases v@.len() - ce,
        {
            ce = ce + 1;
        }
        proof {
            lemma_comma_end_skip(v@, pos as int, ce as int);
        }
        let piece = trim_chars(&sub_vec(&v, pos, ce));
        out.push(piece);
        proof {
            let mapped = out@.map_values(|x: Vec<char>| x@);
            assert(mapped =~= out0 + seq![spec_trim(v@.subrange(pos as int, ce as int))]);
        }
        if ce >= v.len() {
            done = true;
            proof {
                assert(v@.subrange(pos0, v@.len() as int) =~= v@.skip(pos0));
                assert(spec_csv(v@.skip(pos0)) == seq![spec_trim(v@.skip(pos0))]);
                assert(out0 + seq![spec_trim(v@.skip(pos0))] =~= out@.map_values(
                    |x: Vec<char>| x@,
                ));
            }
        } else {
            pos = ce + 1;
            proof {
                let rest = spec_csv(v@.skip(pos as int));
                let piece_s = seq![spec_trim(v@.subrange(pos0, ce as int))];
                assert(spec_csv(v@.skip(pos0)) == piece_s + rest);
                assert((out0 + piece_s) + rest =~= out0 + (piece_s + rest));
            }
        }
    }
    out
}

/// Whether a trimmed term equal to `x` stands in the list.
pub open spec fn spec_list_has(list: Seq<Seq<char>>, x: Seq<char>) -> bool {
    exists|i: int| 0 <= i < list.len() && list[i] == x
}

/// Whether one path is a component-wise prefix of another: equal to it, or
/// a prefix ending at a separator; an empty prefix admits everything.
pub open spec fn spec_path_prefix(p: Seq<char>, f: Seq<char>) -> bool {
    ||| f.len() == 0
    ||| p == f
    ||| (p.len() > f.len() && p.subrange(0, f.len() as int) == f && p[f.len() as int] == '/')
}

/// Component-wise path prefix test.
pub fn path_prefix(p: &Vec<char>, f: &Vec<char>) -> (r: bool)
    ensures
        r == spec_path_prefix(p@, f@),
{
    if f.len() == 0 {
        return true;
    }
    if chars_eq(p, f) {
        return true;
    }
    if p.len() > f.len() && crate::text::matches_at(p, 0, f) && p[f.len()] == '/' {
        return true;
    }
    proof {
        if p@.len() > f@.len() && p@.subrange(0, f@.len() as int) == f@ && p@[f@.len() as int]
            == '/' {
            assert(crate::text::spec_matches_at(p@, 0, f@));
            assert(false);
        }
    }
    false
}

/// Whether the filters admit a file: its extension is not excluded, it is
/// in the kept extensions when those are named, its name is not excluded,
/// and no excluded folder is a prefix of its parent directory — tested in
/// that order, as trimmed comma-separated terms.
pub open spec fn spec_should_include(
    ext: Seq<char>,
    name: Seq<char>,
    parent: Seq<char>,
    filter: Option<Seq<char>>,
    exclude: Option<Seq<char>>,
    exclude_files: Option<Seq<char>>,
    exclude_folders: Option<Seq<char>>,
) -> bool {
    let excluded_ext = match exclude {
        Some(x) => spec_list_has(spec_csv(x), ext),
        None => false,
    };
    let kept_ext = match filter {
        Some(x) => spec_list_has(spec_csv(x), ext),
        None => true,
    };
    let excluded_name = match exclude_files {
        Some(x) => spec_list_has(spec_csv(x), name),
        None => false,
    };
    let excluded_folder = match exclude_folders {
        Some(x) => exists|i: int|
            0 <= i < spec_csv(x).len() && spec_path_prefix(parent, spec_csv(x)[i]),
        None => false,
    };
    !excluded_ext && kept_ext && !excluded_name && !excluded_folder
}

/// Decide whether one walked file enters the prompt, from its extension,
/// its name, its parent path relative to the root, and the configured
/// filter lists.
pub fn should_include(
    extension: &str,
    file_name: &str,
    relative_parent: &str,
    filter: &Option<String>,
    exclude: &Option<String>,
    exclude_files: &Option<String>,
    exclude_folders: &Option<String>,
) -> (r: bool)
    ensures
        r == spec_should_include(
            extension@,
            file_name@,
            relative_parent@,
            opt_view(filter),
            opt_view(exclude),
            opt_view(exclude_files),
            opt_view(exclude_folders),
        ),
{
    let ext = to_chars(extension);
    if let Some(x) = exclude {
        let terms = split_csv(x.as_str());
        if list_has(&terms, &ext) {
            return false;
        }
    }
    if let Some(x) = filter {
        let terms = split_csv(x.as_str());
        if !list_has(&terms, &ext) {
            return false;
        }
    }
    if let Some(x) = exclude_files {
        let terms = split_csv(x.as_str());
        let name = to_chars(file_name);
        if list_has(&terms, &name) {
            return false;
        }
    }
    if let Some(x) = exclude_folders {
        let terms = split_csv(x.as_str());
        let ghost mapped = terms@.map_values(|v: Vec<char>| v@);
        let parent = to_chars(relative_parent);
        let mut i: usize = 0;
        let mut hit = false;
        while !hit && i < terms.len()
            invariant
                i <= terms@.len(),
                parent@ == relative_parent@,
                mapped == terms@.map_values(|v: Vec<char>| v@),
                mapped == spec_csv(x@),
                opt_view(exclude_folders) == Some(x@),
                !hit ==> forall|k: int| 0 <= k < i ==> !spec_path_prefix(
                    relative_parent@,
                    mapped[k],
                ),
                hit ==> exists|k: int|
                    0 <= k < mapped.len() && spec_path_prefix(relative_parent@, mapped[k]),
            decreases terms@.len() - i, (if hit { 0int } else { 1int }),
        {
            if path_prefix(&parent, &terms[i]) {
                proof {
                    assert(spec_path_prefix(relative_parent@, mapped[i as int]));
                }
                hit = true;
            } else {
                i = i + 1;
            }
        }
        if hit {
            proof {
                let k = choose|k: int|
                    0 <= k < mapped.len() && spec_path_prefix(relative_parent@, mapped[k]);
                assert(0 <= k < spec_csv(x@).len());
                assert(spec_path_prefix(relative_parent@, spec_csv(x@)[k]));
                assert(opt_view(exclude_folders)->Some_0 == x@);
                assert(spec_path_prefix(
                    relative_parent@,
                    spec_csv(opt_view(exclude_folders)->Some_0)[k],
                ));
                assert(!spec_should_include(
                    extension@,
                    file_name@,
                    relative_parent@,
                    opt_view(filter),
                    opt_view(exclude),
                    opt_view(exclude_files),
                    opt_view(exclude_folders),
                ));
            }
            return false;
        }
        proof {
            assert(mapped.len() == terms@.len());
            assert(i >= terms@.len());
            assert forall|k: int| 0 <= k < spec_csv(x@).len() implies !spec_path_prefix(
                relative_parent@,
                spec_csv(x@)[k],
            ) by {
                assert(!spec_path_prefix(relative_parent@, mapped[k]));
            }
        }
    }
    true
}

/// The text carried by an optional string reference.
pub open spec fn opt_view(o: &Option<String>) -> Option<Seq<char>> {
    match o {
        Some(s) => Some(s@),
        None => None,
    }
}

/// A character that can start a template variable name.
pub open spec fn is_ident_start(c: char) -> bool {
    let u = c as u32;
    (97 <= u && u <= 122) || (65 <= u && u <= 90) || c == '_'
}

/// A character that can continue a template variable name.
pub open spec fn is_ident_char(c: char) -> bool {
    is_ident_start(c) || (48 <= c as u32 && c as u32 <= 57)
}

/// The first index at or after `i` holding no blank character.
pub open spec fn ws_end(s: Seq<char>, i: int) -> int
    recommends
        0 <= i <= s.len(),
    decreases s.len() - i when 0 <= i <= s.len()
{
    if i >= s.len() {
        s.len() as int
    } else if is_space(s[i]) {
        ws_end(s, i + 1)
    } else {
        i
    }
}

proof fn lemma_ws_end_bounds(s: Seq<char>, i: int)
    requires
        0 <= i <= s.len(),
    ensures
        i <= ws_end(s, i) <= s.len(),
        ws_end(s, i) < s.len() ==> !is_space(s[ws_end(s, i)]),
        forall|k: int| i <= k < ws_end(s, i) ==> is_space(s[k]),
    decreases s.len() - i,
{
    if i < s.len() && is_space(s[i]) {
        lemma_ws_end_bounds(s, i + 1);
    }
}

proof fn lemma_ws_end_skip(s: Seq<char>, i: int, mid: int)
    requires
        0 <= i <= mid <= s.len(),
        forall|k: int| i <= k < mid ==> is_space(s[k]),
        mid < s.len() ==> !is_space(s[mid]),
    ensures
        ws_end(s, i) == mid,
    decreases mid - i,
{
    if i < mid {
        lemma_ws_end_skip(s, i + 1, mid);
    }
}

/// The first index at or after `i` holding no variable-name character.
pub open spec fn ident_end(s: Seq<char>, i: int) -> int
    recommends
        0 <= i <= s.len(),
    decreases s.len() - i when 0 <= i <= s.len()
{
    if i >= s.len() {
        s.len() as int
    } else if is_ident_char(s[i]) {
        ident_end(s, i + 1)
    } else {
        i
    }
}

proof fn lemma_ident_end_bounds(s: Seq<char>, i: int)
    requires
        0 <= i <= s.len(),
    ensures
        i <= ident_end(s, i) <= s.len(),
    decreases s.len() - i,
{
    if i < s.len() && is_ident_char(s[i]) {
        lemma_ident_end_bounds(s, i + 1);
    }
}

proof fn lemma_ident_end_skip(s: Seq<char>, i: int, mid: int)
    requires
        0 <= i <= mid <= s.len(),
        forall|k: int| i <= k < mid ==> is_ident_char(s[k]),
        mid < s.len() ==> !is_ident_char(s[mid]),
    ensures
        ident_end(s, i) == mid,
    decreases mid - i,
{
    if i < mid {
        lemma_ident_end_skip(s, i + 1, mid);
    }
}

/// The template variable reference beginning at index `i`, if one does:
/// two opening braces, blanks, a name, blanks, two closing braces — and
/// the index just after it.
pub open spec fn tmpl_match(s: Seq<char>, i: int) -> Option<(Seq<char>, int)>
    recommends
        0 <= i <= s.len(),
{
    if i + 2 <= s.len() && s[i] == '{' && s[i + 1] == '{' {
        let a = ws_end(s, i + 2);
        if a < s.len() && is_ident_start(s[a]) {
            let b = ident_end(s, a);
            let c = ws_end(s, b);
            if c + 2 <= s.len() && s[c] == '}' && s[c + 1] == '}' {
                Some((s.subrange(a, b), c + 2))
            } else {
                None
            }
        } else {
            None
        }
    } else {
        None
    }
}

proof fn lemma_tmpl_match_advances(s: Seq<char>, i: int)
    requires
        0 <= i <= s.len(),
    ensures
        tmpl_match(s, i) matches Some(m) ==> i < m.1 <= s.len(),
{
    if i + 2 <= s.len() && s[i] == '{' && s[i + 1] == '{' {
        lemma_ws_end_bounds(s, i + 2);
        let a = ws_end(s, i + 2);
        if a < s.len() && is_ident_start(s[a]) {
            lemma_ident_end_bounds(s, a);
            lemma_ws_end_bounds(s, ident_end(s, a));
        }
    }
}

/// A name the template engine defines by itself.
pub open spec fn is_registered(v: Seq<char>) -> bool {
    ||| v == seq!['p', 'a', 't', 'h']
    ||| v == seq!['c', 'o', 'd', 'e']
    ||| v == seq!['g', 'i', 't', '_', 'd', 'i', 'f', 'f']
}

/// The undefined variable names of the template from index `i` on, found
/// left to right, duplicates kept: every referenced name that the engine
/// does not define.
pub open spec fn spec_undefined_vars(s: Seq<char>, i: int) -> Seq<Seq<char>>
    recommends
        0 <= i <= s.len(),
    decreases s.len() - i when 0 <= i <= s.len()
    via spec_undefined_vars_decreases
{
    if i >= s.len() {
        Seq::<Seq<char>>::empty()
    } else {
        match tmpl_match(s, i) {
            Some(m) => {
                if is_registered(m.0) {
                    spec_undefined_vars(s, m.1)
                } else {
                    seq![m.0] + spec_undefined_vars(s, m.1)
                }
            },
            None => spec_undefined_vars(s, i + 1),
        }
    }
}

#[via_fn]
proof fn spec_undefined_vars_decreases(s: Seq<char>, i: int) {
    if 0 <= i <= s.len() {
        lemma_tmpl_match_advances(s, i);
    }
}

/// Variable-name starting character test, executably.
fn ident_start_exec(c: char) -> (r: bool)
    ensures
        r == is_ident_start(c),
{
    let u = c as u32;
    (97 <= u && u <= 122) || (65 <= u && u <= 90) || c == '_'
}

/// Variable-name character test, executably.
fn ident_char_exec(c: char) -> (r: bool)
    ensures
        r == is_ident_char(c),
{
    ident_start_exec(c) || (48 <= c as u32 && c as u32 <= 57)
}

/// The first non-blank index at or after `i`, executably.
fn find_ws_end(v: &Vec<char>, i: usize) -> (r: usize)
    requires
        i <= v@.len(),
    ensures
        r == ws_end(v@, i as int),
{
    let mut j: usize = i;
    while j < v.len() && is_space_exec(v[j])
        invariant
            i <= j <= v@.len(),
            forall|k: int| i <= k < j ==> is_space(v@[k]),
        decreases v@.len() - j,
    {
        j = j + 1;
    }
    proof {
        lemma_ws_end_skip(v@, i as int, j as int);
    }
    j
}

/// The first non-name index at or after `i`, executably.
fn find_ident_end(v: &Vec<char>, i: usize) -> (r: usize)
    requires
        i <= v@.len(),
    ensures
        r == ident_end(v@, i as int),
{
    let mut j: usize = i;
    while j < v.len() && ident_char_exec(v[j])
        invariant
            i <= j <= v@.len(),
            forall|k: int| i <= k < j ==> is_ident_char(v@[k]),
        decreases v@.len() - j,
    {
        j = j + 1;
    }
    proof {
        lemma_ident_end_skip(v@, i as int, j as int);
    }
    j
}

/// The names a template references that the engine does not define.
pub fn extract_undefined_variables(template: &str) -> (r: Vec<String>)
    ensures
        r@.map_values(|s: String| s@) == spec_undefined_vars(template@, 0),
{
    let v = to_chars(template);
    let path_v = to_chars("path");
    let code_v = to_chars("code");
    let diff_v = to_chars("git_diff");
    proof {
        reveal_strlit("path");
        reveal_strlit("code");
        reveal_strlit("git_diff");
        assert(path_v@ =~= seq!['p', 'a', 't', 'h']);
        assert(code_v@ =~= seq!['c', 'o', 'd', 'e']);
        assert(diff_v@ =~= seq!['g', 'i', 't', '_', 'd', 'i', 'f', 'f']);
    }
    let mut out: Vec<String> = Vec::new();
    let mut i: usize = 0;
    proof {
        assert(out@.map_values(|s: String| s@) + spec_undefined_vars(v@, 0) =~= spec_undefined_vars(
            v@,
            0,
        ));
    }
    while i < v.len()
        invariant
            i <= v@.len(),
            v@ == template@,
            path_v@ == seq!['p', 'a', 't', 'h'],
            code_v@ == seq!['c', 'o', 'd', 'e'],
            diff_v@ == seq!['g', 'i', 't', '_', 'd', 'i', 'f', 'f'],
            spec_undefined_vars(v@, 0) == out@.map_values(|s: String| s@) + spec_undefined_vars(
                v@,
                i as int,
            ),
        decreases v@.len() - i,
    {
        let ghost i0 = i as int;
        let ghost out0 = out@.map_values(|s: String| s@);
        proof {
            lemma_tmpl_match_advances(v@, i0);
        }
        let mut advanced = false;
        if v.len() - i >= 2 && v[i] == '{' && v[i + 1] == '{' {
            let a = find_ws_end(&v, i + 2);
            proof {
                lemma_ws_end_bounds(v@, i0 + 2);
            }
            if a < v.len() && ident_start_exec(v[a]) {
                let b = find_ident_end(&v, a);
                proof {
                    lemma_ident_end_bounds(v@, a as int);
                }
                let c = find_ws_end(&v, b);
                proof {
                    lemma_ws_end_bounds(v@, b as int);
                }
                if v.len() - c >= 2 && v[c] == '}' && v[c + 1] == '}' {
                    let ghost m = tmpl_match(v@, i0)->Some_0;
                    let name = sub_vec(&v, a, b);
                    proof {
                        assert(tmpl_match(v@, i0) == Some((v@.subrange(a as int, b as int), c
                            + 2)));
                        assert(name@ == m.0);
                        assert(m.1 == c + 2);
                    }
                    let registered = chars_eq(&name, &path_v) || chars_eq(&name, &code_v)
                        || chars_eq(&name, &diff_v);
                    proof {
                        assert(registered == is_registered(m.0));
                    }
                    if !registered {
                        let name_s = from_chars(&name);
                        out.push(name_s);
                        proof {
                            assert(out@.map_values(|s: String| s@) =~= out0 + seq![m.0]);
                        }
                    }
                    i = c + 2;
                    advanced = true;
                    proof {
                        let rest = spec_undefined_vars(v@, i as int);
                        if is_registered(m.0) {
                            assert(spec_undefined_vars(v@, i0) == rest);
                        } else {
                            assert(spec_undefined_vars(v@, i0) == seq![m.0] + rest);
                            assert((out0 + seq![m.0]) + rest =~= out0 + (seq![m.0] + rest));
                        }
                    }
                }
            }
        }
        if !advanced {
            proof {
                assert(tmpl_match(v@, i0) is None);
                assert(spec_undefined_vars(v@, i0) == spec_undefined_vars(v@, i0 + 1));
            }
            i = i + 1;
        }
    }
    proof {
        assert(spec_undefined_vars(v@, i as int) == Seq::<Seq<char>>::empty());
        assert(out@.map_values(|s: String| s@) + Seq::<Seq<char>>::empty() =~= out@.map_values(
            |s: String| s@,
        ));
    }
    out
}

/// Whether `x` is one of the vectors of `list`.
pub fn list_has(list: &Vec<Vec<char>>, x: &Vec<char>) -> (r: bool)
    ensures
        r == spec_list_has(list@.map_values(|v: Vec<char>| v@), x@),
{
    let ghost mapped = list@.map_values(|v: Vec<char>| v@);
    let mut i: usize = 0;
    while i < list.len()
        invariant
            i <= list@.len(),
            mapped == list@.map_values(|v: Vec<char>| v@),
            forall|k: int| 0 <= k < i ==> mapped[k] != x@,
        decreases list@.len() - i,
    {
        if chars_eq(&list[i], x) {
            proof {
                assert(mapped[i as int] == x@);
            }
            return true;
        }
        i = i + 1;
    }
    false
}

} // verus!
