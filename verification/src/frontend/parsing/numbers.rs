//! Reading numbers: the value of a run of digits, within a limit.

use vstd::prelude::*;
use super::classes::{CharClass, lemma_run_end, lemma_run_end_piece, scan_run};
use super::grammar::{digit_value, is_integer_text, numeral};

verus! {

/// The value of a digit, for the digits up to `F`.
pub fn digit_of(c: char) -> (d: u64)
    requires
        CharClass::UpperHex.has(c),
    ensures
        d == digit_value(c),
        d <= 15,
{
    if c <= '9' {
        (c as u32 - '0' as u32) as u64
    } else {
        (c as u32 - 'A' as u32 + 10) as u64
    }
}

/// A numeral is no smaller than the numeral of any of its prefixes.
pub proof fn lemma_numeral_grows(t: Seq<char>, k: int, radix: int)
    requires
        0 <= k <= t.len(),
        1 <= radix,
        forall|x: int| 0 <= x < t.len() ==> CharClass::UpperHex.has(#[trigger] t[x]),
    ensures
        0 <= numeral(t.take(k), radix) <= numeral(t, radix),
    decreases t.len() - k,
{
    if k == t.len() {
        assert(t.take(k) =~= t);
        lemma_numeral_nonnegative(t, radix);
    } else {
        let u = t.drop_last();
        lemma_numeral_grows(u, k, radix);
        assert(u.take(k) =~= t.take(k));
        assert(numeral(u, radix) * radix >= numeral(u, radix)) by (nonlinear_arith)
            requires
                numeral(u, radix) >= 0,
                radix >= 1,
        ;
    }
}

/// A numeral is not negative.
pub proof fn lemma_numeral_nonnegative(t: Seq<char>, radix: int)
    requires
        1 <= radix,
        forall|x: int| 0 <= x < t.len() ==> CharClass::UpperHex.has(#[trigger] t[x]),
    ensures
        0 <= numeral(t, radix),
    decreases t.len(),
{
    if t.len() > 0 {
        let u = t.drop_last();
        lemma_numeral_nonnegative(u, radix);
        assert(numeral(u, radix) * radix >= 0) by (nonlinear_arith)
            requires
                numeral(u, radix) >= 0,
                radix >= 1,
        ;
    }
}

/// Whether one more digit keeps a number within the limit.
proof fn lemma_fits(acc: int, d: int, radix: int, limit: int)
    requires
        0 <= acc,
        0 <= d <= limit,
        2 <= radix,
    ensures
        acc > (limit - d) / radix <==> acc * radix + d > limit,
{
    let q = (limit - d) / radix;
    let r = (limit - d) % radix;
    assert(limit - d == q * radix + r && 0 <= r < radix) by (nonlinear_arith)
        requires
            q == (limit - d) / radix,
            r == (limit - d) % radix,
            radix >= 2,
    ;
    if acc > q {
        assert(acc * radix >= (q + 1) * radix) by (nonlinear_arith)
            requires
                acc >= q + 1,
                radix >= 2,
        ;
        assert((q + 1) * radix == q * radix + radix) by (nonlinear_arith);
    } else {
        assert(acc * radix <= q * radix) by (nonlinear_arith)
            requires
                acc <= q,
                radix >= 2,
        ;
    }
}

/// Reads the digits of `src` from `from` up to `to` as a number in base
/// `radix`: the number where it is at most `limit`, nothing where it is more.
pub fn read_numeral(src: &[char], from: usize, to: usize, radix: u64, limit: u64) -> (value:
    Option<u64>)
    requires
        from <= to <= src.len(),
        forall|x: int| from <= x < to ==> CharClass::UpperHex.has(#[trigger] src@[x]),
        2 <= radix <= 16,
    ensures
        match value {
            Some(v) => v == numeral(src@.subrange(from as int, to as int), radix as int) && v
                <= limit,
            None => numeral(src@.subrange(from as int, to as int), radix as int) > limit,
        },
{
    let ghost t = src@.subrange(from as int, to as int);
    let mut acc: u64 = 0;
    let mut k: usize = from;
    while k < to
        invariant
            from <= k <= to <= src.len(),
            t == src@.subrange(from as int, to as int),
            forall|x: int| from <= x < to ==> CharClass::UpperHex.has(#[trigger] src@[x]),
            2 <= radix <= 16,
            acc == numeral(t.take(k - from), radix as int),
            acc <= limit,
        decreases to - k,
    {
        let d = digit_of(src[k]);
        proof {
            let p = t.take(k + 1 - from);
            assert(p.drop_last() =~= t.take(k - from));
            assert(p.last() == src@[k as int]);
            assert(numeral(p, radix as int) == acc * radix + d);
            lemma_numeral_grows(t, k + 1 - from, radix as int);
        }
        if d > limit {
            proof {
                assert(acc * radix >= 0) by (nonlinear_arith)
                    requires
                        acc >= 0,
                        radix >= 2,
                ;
            }
            return None;
        }
        proof {
            lemma_fits(acc as int, d as int, radix as int, limit as int);
        }
        if acc > (limit - d) / radix {
            return None;
        }
        acc = acc * radix + d;
        k += 1;
    }
    proof {
        assert(t.take(to - from) =~= t);
    }
    Some(acc)
}

/// Whether `text` is a decimal integer of 64 bits, with its sign or without.
pub fn holds_integer(text: &[char]) -> (b: bool)
    ensures
        b == is_integer_text(text@),
{
    let n = text.len();
    let signed = n > 0 && (text[0] == '+' || text[0] == '-');
    let start: usize = if signed {
        1
    } else {
        0
    };
    let ghost digits = text@.subrange(start as int, n as int);
    proof {
        assert(digits =~= if signed {
            text@.skip(1)
        } else {
            text@
        });
        lemma_run_end_piece(text@, start as int, n - start, 0, CharClass::Digit);
        lemma_run_end(text@, start as int, CharClass::Digit);
    }
    if start == n {
        return false;
    }
    let end = scan_run(text, start, CharClass::Digit);
    if end < n {
        return false;
    }
    let limit: u64 = if signed && text[0] == '-' {
        0x8000_0000_0000_0000
    } else {
        0x7fff_ffff_ffff_ffff
    };
    read_numeral(text, start, n, 10, limit).is_some()
}

} // verus!
