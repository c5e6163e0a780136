//! Text normalization applied to decoded answer fragments: numeric unicode
//! escapes become literal characters, transport-introduced quotes are
//! stripped, and escaped newline variants collapse to real newlines.

use vstd::prelude::*;

verus! {

use crate::text::{spec_replace_all, replace_all, to_chars};

/// Hexadecimal digit, either case.
pub open spec fn is_hex_digit(c: char) -> bool {
    let u = c as u32;
    (48 <= u && u <= 57) || (97 <= u && u <= 102) || (65 <= u && u <= 70)
}

/// The value of a hexadecimal digit.
pub open spec fn hex_val(c: char) -> int {
    let u = c as u32;
    if 48 <= u && u <= 57 {
        u - 48
    } else if 97 <= u && u <= 102 {
        u - 87
    } else if 65 <= u && u <= 70 {
        u - 55
    } else {
        0
    }
}

/// Whether a `\uXXXX` escape begins at index `i` of `s`.
pub open spec fn escape_at(s: Seq<char>, i: int) -> bool {
    &&& 0 <= i
    &&& i + 6 <= s.len()
    &&& s[i] == '\\'
    &&& s[i + 1] == 'u'
    &&& is_hex_digit(s[i + 2])
    &&& is_hex_digit(s[i + 3])
    &&& is_hex_digit(s[i + 4])
    &&& is_hex_digit(s[i + 5])
}

/// The code of the escape starting at index `i`.
pub open spec fn escape_code(s: Seq<char>, i: int) -> int {
    hex_val(s[i + 2]) * 4096 + hex_val(s[i + 3]) * 256 + hex_val(s[i + 4]) * 16 + hex_val(
        s[i + 5],
    )
}

/// `s` with every `\uXXXX` escape replaced by the character it codes, found
/// left to right. An escape that codes no Unicode scalar (a surrogate) is
/// left as it stands rather than stopping the stream.
pub open spec fn spec_unescape(s: Seq<char>) -> Seq<char>
    decreases s.len(),
{
    if s.len() == 0 {
        Seq::<char>::empty()
    } else if escape_at(s, 0) {
        let code = escape_code(s, 0) as u32;
        if vstd::utf8::is_scalar(code) {
            seq![code as char] + spec_unescape(s.skip(6))
        } else {
            s.subrange(0, 6) + spec_unescape(s.skip(6))
        }
    } else {
        seq![s[0]] + spec_unescape(s.skip(1))
    }
}

/// Unescaping examined from an arbitrary start: what remains of `s` at `i`.
proof fn lemma_unescape_step(s: Seq<char>, i: int)
    requires
        0 <= i <= s.len(),
    ensures
        escape_at(s, i) ==> spec_unescape(s.skip(i)) == (if vstd::utf8::is_scalar(
            escape_code(s, i) as u32,
        ) {
            seq![(escape_code(s, i) as u32) as char]
        } else {
            s.subrange(i, i + 6)
        }) + spec_unescape(s.skip(i + 6)),
        (!escape_at(s, i) && i < s.len()) ==> spec_unescape(s.skip(i)) == seq![s[i]]
            + spec_unescape(s.skip(i + 1)),
{
    let t = s.skip(i);
    if escape_at(s, i) {
        assert(escape_at(t, 0));
        assert(escape_code(t, 0) == escape_code(s, i));
        assert(t.subrange(0, 6) =~= s.subrange(i, i + 6));
        assert(t.skip(6) =~= s.skip(i + 6));
    } else if i < s.len() {
        assert(t[0] == s[i]);
        if escape_at(t, 0) {
            assert(escape_at(s, i));
            assert(false);
        }
        assert(t.skip(1) =~= s.skip(i + 1));
    }
}

/// Relies on `char::from_u32`: `Some` exactly when the code is a Unicode
/// scalar value, in which case the character carries that code.
#[verifier::external_body]
fn char_from_u32(u: u32) -> (r: Option<char>)
    ensures
        r is Some <==> vstd::utf8::is_scalar(u),
        r matches Some(c) ==> c as u32 == u,
{
    char::from_u32(u)
}

/// The value of a hexadecimal digit character.
fn hex_digit_val(c: char) -> (r: u32)
    requires
        is_hex_digit(c),
    ensures
        r == hex_val(c),
        r <= 15,
{
    let u = c as u32;
    if 48 <= u && u <= 57 {
        u - 48
    } else if 97 <= u && u <= 102 {
        u - 87
    } else {
        u - 55
    }
}

/// Decode every `\uXXXX` escape of `v` into its literal character.
pub fn unescape_unicode(v: &Vec<char>) -> (r: Vec<char>)
    ensures
        r@ == spec_unescape(v@),
{
    let mut out: Vec<char> = Vec::new();
    let mut i: usize = 0;
    proof {
        assert(v@.skip(0) =~= v@);
        assert(out@ + spec_unescape(v@) =~= spec_unescape(v@));
    }
    while i < v.len()
        invariant
            i <= v@.len(),
            spec_unescape(v@) == out@ + spec_unescape(v@.skip(i as int)),
        decreases v@.len() - i,
    {
        let ghost i0 = i as int;
        let ghost out0 = out@;
        proof {
            lemma_unescape_step(v@, i0);
        }
        let is_escape = v.len() - i >= 6 && v[i] == '\\' && v[i + 1] == 'u' && hex_ok(v[i + 2])
            && hex_ok(v[i + 3]) && hex_ok(v[i + 4]) && hex_ok(v[i + 5]);
        if is_escape {
            let code: u32 = hex_digit_val(v[i + 2]) * 4096 + hex_digit_val(v[i + 3]) * 256
                + hex_digit_val(v[i + 4]) * 16 + hex_digit_val(v[i + 5]);
            proof {
                assert(escape_at(v@, i0));
                assert(code == escape_code(v@, i0));
            }
            match char_from_u32(code) {
                Some(c) => {
                    out.push(c);
                    proof {
                        vstd::utf8::char_u32_cast(c, code);
                        assert(out@ =~= out0 + seq![(escape_code(v@, i0) as u32) as char]);
                    }
                },
                None => {
                    out.push(v[i]);
                    out.push(v[i + 1]);
                    out.push(v[i + 2]);
                    out.push(v[i + 3]);
                    out.push(v[i + 4]);
                    out.push(v[i + 5]);
                    proof {
                        assert(out@ =~= out0 + v@.subrange(i0, i0 + 6));
                    }
                },
            }
            i = i + 6;
            proof {
                let rest = spec_unescape(v@.skip(i as int));
                let piece = if vstd::utf8::is_scalar(escape_code(v@, i0) as u32) {
                    seq![(escape_code(v@, i0) as u32) as char]
                } else {
                    v@.subrange(i0, i0 + 6)
                };
                assert(out@ =~= out0 + piece);
                assert((out0 + piece) + rest =~= out0 + (piece + rest));
            }
        } else {
            proof {
                if escape_at(v@, i0) {
                    assert(false);
                }
            }
            out.push(v[i]);
            i = i + 1;
            proof {
                let rest = spec_unescape(v@.skip(i as int));
                assert(out@ =~= out0 + seq![v@[i0]]);
                assert((out0 + seq![v@[i0]]) + rest =~= out0 + (seq![v@[i0]] + rest));
            }
        }
    }
    proof {
        assert(v@.skip(i as int) =~= Seq::<char>::empty());
        assert(spec_unescape(Seq::<char>::empty()) == Seq::<char>::empty());
        assert(out@ + Seq::<char>::empty() =~= out@);
    }
    out
}

/// Hexadecimal digit test on a character.
fn hex_ok(c: char) -> (r: bool)
    ensures
        r == is_hex_digit(c),
{
    let u = c as u32;
    (48 <= u && u <= 57) || (97 <= u && u <= 102) || (65 <= u && u <= 70)
}

/// The normalization chain applied to decoded fragments: decode unicode
/// escapes, drop literal quotes, collapse escaped newline variants into real
/// newlines, then drop any remaining backslashes.
pub open spec fn spec_normalize(s: Seq<char>) -> Seq<char> {
    let a = spec_unescape(s);
    let b = spec_replace_all(a, seq!['"'], Seq::<char>::empty());
    let c = spec_replace_all(b, seq!['\\', 'n', '\\', 'n'], seq!['\n']);
    let d = spec_replace_all(c, seq!['\\', 'n', 'n'], seq!['\n']);
    let e = spec_replace_all(d, seq!['\\', '\\', 'n'], seq!['\n']);
    let f = spec_replace_all(e, seq!['\\', '\\', 'n', 'n'], seq!['\n']);
    spec_replace_all(f, seq!['\\'], Seq::<char>::empty())
}

/// Apply the full normalization chain to a fragment.
pub fn normalize(v: &Vec<char>) -> (r: Vec<char>)
    ensures
        r@ == spec_normalize(v@),
{
    let a = unescape_unicode(v);
    let quote = to_chars("\"");
    let backslash = to_chars("\\");
    let esc_nn = to_chars("\\n\\n");
    let esc_n2 = to_chars("\\nn");
    let esc_bn = to_chars("\\\\n");
    let esc_bn2 = to_chars("\\\\nn");
    let nl = to_chars("\n");
    let empty: Vec<char> = Vec::new();
    proof {
        reveal_strlit("\"");
        reveal_strlit("\\");
        reveal_strlit("\\n\\n");
        reveal_strlit("\\nn");
        reveal_strlit("\\\\n");
        reveal_strlit("\\\\nn");
        reveal_strlit("\n");
        assert(quote@ =~= seq!['"']);
        assert(backslash@ =~= seq!['\\']);
        assert(esc_nn@ =~= seq!['\\', 'n', '\\', 'n']);
        assert(esc_n2@ =~= seq!['\\', 'n', 'n']);
        assert(esc_bn@ =~= seq!['\\', '\\', 'n']);
        assert(esc_bn2@ =~= seq!['\\', '\\', 'n', 'n']);
        assert(nl@ =~= seq!['\n']);
    }
    let b = replace_all(&a, &quote, &empty);
    let c = replace_all(&b, &esc_nn, &nl);
    let d = replace_all(&c, &esc_n2, &nl);
    let e = replace_all(&d, &esc_bn, &nl);
    let f = replace_all(&e, &esc_bn2, &nl);
    replace_all(&f, &backslash, &empty)
}

} // verus!
