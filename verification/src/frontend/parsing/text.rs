//! Characters, strings and byte offsets: moving between a `str`, its
//! characters and the bytes that they take in UTF-8.

use vstd::prelude::*;
use vstd::utf8::{
    char_is_scalar,
    encode_scalar,
    encode_utf8,
    encode_utf8_decode_utf8,
    encode_utf8_valid_utf8,
    is_char_boundary,
    is_char_boundary_iff_not_is_continuation_byte,
    is_char_boundary_start_end_of_seq,
    valid_utf8,
    valid_utf8_split,
};
use vstd::string::StringSliceAdditionalSpecFns;
use super::grammar::source_slice;
use super::grammar::byte_offset;

verus! {

/// `String::push` appends one character to the string: the text afterwards
/// is the text before with `c` behind it.
pub assume_specification[ String::push ](s: &mut String, c: char)
    ensures
        final(s)@ == old(s)@.push(c),
;

/// The characters of `text`, in order.
pub fn to_chars(text: &str) -> (chars: Vec<char>)
    ensures
        chars@ == text@,
{
    let mut chars: Vec<char> = Vec::new();
    for c in it: text.chars()
        invariant
            chars@ == it.seq().take(it.index()),
    {
        chars.push(c);
    }
    chars
}

/// The characters of `src` from `from` up to `to`, as a string.
pub fn text_of(src: &[char], from: usize, to: usize) -> (text: String)
    requires
        from <= to <= src.len(),
    ensures
        text@ == src@.subrange(from as int, to as int),
{
    let mut text = String::new();
    let mut k: usize = from;
    while k < to
        invariant
            from <= k <= to <= src.len(),
            text@ == src@.subrange(from as int, k as int),
        decreases to - k,
    {
        text.push(src[k]);
        proof {
            assert(src@.subrange(from as int, k as int).push(src@[k as int]) =~= src@.subrange(
                from as int,
                k + 1,
            ));
        }
        k += 1;
    }
    text
}

/// The number of bytes that `c` takes in UTF-8.
pub fn utf8_width(c: char) -> (w: usize)
    ensures
        w == encode_scalar(c as u32).len(),
        1 <= w <= 4,
{
    proof {
        char_is_scalar(c);
    }
    let v: u32 = c as u32;
    if v < 0x80 {
        1
    } else if v < 0x800 {
        2
    } else if v < 0x10000 {
        3
    } else {
        4
    }
}

/// The encoding of two texts one behind the other is the encoding of the
/// first with that of the second behind it.
pub proof fn lemma_encode_concat(a: Seq<char>, b: Seq<char>)
    ensures
        encode_utf8(a + b) == encode_utf8(a) + encode_utf8(b),
    decreases a.len(),
{
    if a.len() == 0 {
        assert(a + b =~= b);
        assert(encode_utf8(a) + encode_utf8(b) =~= encode_utf8(b));
    } else {
        lemma_encode_concat(a.drop_first(), b);
        assert((a + b).drop_first() =~= a.drop_first() + b);
        assert(encode_utf8(a + b) =~= encode_utf8(a) + encode_utf8(b));
    }
}

/// Byte offsets start at 0, end at the length of the encoding, and grow from
/// each character to the next by the width of the character.
pub proof fn lemma_byte_offset(s: Seq<char>, i: int)
    requires
        0 <= i <= s.len(),
    ensures
        byte_offset(s, 0) == 0,
        byte_offset(s, s.len() as int) == encode_utf8(s).len(),
        0 <= byte_offset(s, i) <= encode_utf8(s).len(),
        i < s.len() ==> byte_offset(s, i + 1) == byte_offset(s, i) + encode_scalar(
            s[i] as u32,
        ).len(),
{
    assert(s.take(s.len() as int) =~= s);
    assert(s.take(i) + s.skip(i) =~= s);
    lemma_encode_concat(s.take(i), s.skip(i));
    if i < s.len() {
        assert(s.take(i + 1) =~= s.take(i) + seq![s[i]]);
        lemma_encode_concat(s.take(i), seq![s[i]]);
        assert(seq![s[i]].drop_first() =~= Seq::<char>::empty());
        assert(encode_utf8(seq![s[i]]) =~= encode_scalar(s[i] as u32)) by {
            reveal_with_fuel(encode_utf8, 2);
        }
    }
}

/// Byte offsets grow with the index.
pub proof fn lemma_byte_offset_grows(s: Seq<char>, i: int, j: int)
    requires
        0 <= i <= j <= s.len(),
    ensures
        byte_offset(s, i) <= byte_offset(s, j),
        i < j ==> byte_offset(s, i) < byte_offset(s, j),
    decreases j - i,
{
    if i < j {
        lemma_byte_offset(s, i);
        char_is_scalar(s[i]);
        lemma_byte_offset_grows(s, i + 1, j);
    }
}

/// The byte offset of the character at `to`, given that of the one at `from`.
pub fn offset_after(src: &[char], from: usize, to: usize, at: usize) -> (end: usize)
    requires
        from <= to <= src.len(),
        at == byte_offset(src@, from as int),
        encode_utf8(src@).len() <= usize::MAX,
    ensures
        end == byte_offset(src@, to as int),
{
    let mut end: usize = at;
    let mut k: usize = from;
    while k < to
        invariant
            from <= k <= to <= src.len(),
            end == byte_offset(src@, k as int),
            encode_utf8(src@).len() <= usize::MAX,
        decreases to - k,
    {
        proof {
            lemma_byte_offset(src@, k as int);
            lemma_byte_offset(src@, k + 1);
        }
        end += utf8_width(src[k]);
        k += 1;
    }
    end
}

/// A character boundary behind another one is a character boundary of the
/// text that starts at the first.
pub proof fn lemma_boundary_in_tail(bytes: Seq<u8>, a: int, b: int)
    requires
        valid_utf8(bytes),
        0 <= a <= b <= bytes.len(),
        is_char_boundary(bytes, a),
        is_char_boundary(bytes, b),
    ensures
        valid_utf8(bytes.subrange(a, bytes.len() as int)),
        is_char_boundary(bytes.subrange(a, bytes.len() as int), b - a),
{
    let tail = bytes.subrange(a, bytes.len() as int);
    valid_utf8_split(bytes, a);
    if b == bytes.len() {
        is_char_boundary_start_end_of_seq(tail);
    } else if a < b {
        is_char_boundary_iff_not_is_continuation_byte(bytes, b);
        assert(tail[b - a] == bytes[b]);
        is_char_boundary_iff_not_is_continuation_byte(tail, b - a);
    }
}

/// The part of `text` between two character boundaries, given in bytes:
/// `start` from the front, `end` from the front too.
pub fn slice_between(text: &str, start: usize, end: usize) -> (part: &str)
    requires
        start <= end <= text.spec_bytes().len(),
        is_char_boundary(text.spec_bytes(), start as int),
        is_char_boundary(text.spec_bytes(), end as int),
    ensures
        part@ == source_slice(text@, start as int, end as int),
{
    let ghost bytes = text.spec_bytes();
    proof {
        encode_utf8_valid_utf8(text@);
        lemma_boundary_in_tail(bytes, start as int, end as int);
    }
    let (_, tail) = text.split_at(start);
    let (part, _) = tail.split_at(end - start);
    proof {
        assert(part.spec_bytes() =~= bytes.subrange(start as int, end as int));
        encode_utf8_decode_utf8(part@);
    }
    part
}

} // verus!
