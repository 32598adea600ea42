//! Decoding the body of a string or character literal.

use vstd::prelude::*;
use super::grammar::{escape_code, unescape};

verus! {

/// Appends to `out` what the backslash and `c` stand for together.
pub fn push_escape(out: &mut Vec<char>, c: char)
    ensures
        final(out)@ == old(out)@ + escape_code(c),
{
    let ghost before = out@;
    if c == '\\' {
        out.push('\\');
    } else if c == '"' {
        out.push('"');
    } else if c == '\'' {
        out.push('\'');
    } else if c == 'n' {
        out.push('\n');
    } else if c == 'r' {
        out.push('\r');
    } else if c == 't' {
        out.push('\t');
    } else if c == '0' {
        out.push('\0');
    } else {
        out.push('\\');
        out.push(c);
    }
    proof {
        assert(out@ =~= before + escape_code(c));
    }
}

/// The text that the literal body `src[from..to]` stands for.
pub fn unescape_chars(src: &[char], from: usize, to: usize) -> (out: Vec<char>)
    requires
        from <= to <= src.len(),
    ensures
        out@ == unescape(src@.subrange(from as int, to as int)),
{
    let mut out: Vec<char> = Vec::new();
    let mut k: usize = from;
    while k < to
        invariant
            from <= k <= to <= src.len(),
            out@ + unescape(src@.subrange(k as int, to as int)) == unescape(
                src@.subrange(from as int, to as int),
            ),
        decreases to - k,
    {
        let ghost rest = src@.subrange(k as int, to as int);
        let ghost before = out@;
        let c = src[k];
        assert(rest[0] == c);
        if c == '\\' && k + 1 < to {
            assert(rest[1] == src@[k + 1]);
            assert(rest.skip(2) =~= src@.subrange(k + 2, to as int));
            push_escape(&mut out, src[k + 1]);
            assert(out@ + unescape(rest.skip(2)) =~= before + unescape(rest));
            k += 2;
        } else {
            assert(rest.skip(1) =~= src@.subrange(k + 1, to as int));
            out.push(c);
            assert(out@ + unescape(rest.skip(1)) =~= before + unescape(rest));
            k += 1;
        }
    }
    proof {
        assert(out@ + unescape(src@.subrange(to as int, to as int)) =~= out@);
    }
    out
}

} // verus!
