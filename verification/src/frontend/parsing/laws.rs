//! What holds of every input: the lexemes cover the input without gap or
//! overlap, the tokens come out in source order, no lexeme could have been
//! longer, and a token read again from its own text is the same token.

use vstd::prelude::*;
use vstd::utf8::{encode_utf8, encode_utf8_decode_utf8};
use super::classes::{CharClass, lemma_run_end};
use super::grammar::{
    accepted,
    boolean_spelling,
    byte_offset,
    emitted,
    is_binary_word,
    is_decimal_word,
    is_float_literal,
    is_hex_word,
    is_identifier,
    is_integer_literal,
    keyword_spelling,
    lexeme_at,
    lexeme_len,
    longest_accepted,
    Piece,
    piece_at,
    pieces_from,
    recognise,
    source_slice,
    tokens,
};
use super::munch::lemma_first_char;
use super::pieces::{lemma_float_piece, lemma_patterns};
use super::text::{lemma_byte_offset, lemma_byte_offset_grows, lemma_encode_concat};
use super::token::{Lexeme, Token};

verus! {

/// Whether the pieces `p` cover the bytes from `from` up to `to` one behind
/// the other: the first starts at `from`, each starts where the one before
/// ended and holds at least one byte, and the last ends at `to`.
pub open spec fn tiles(p: Seq<Piece>, from: int, to: int) -> bool {
    if p.len() == 0 {
        from == to
    } else {
        &&& p[0].start == from
        &&& p[p.len() - 1].end == to
        &&& forall|k: int| 0 <= k < p.len() ==> (#[trigger] p[k]).start < p[k].end
        &&& forall|k: int| 0 <= k < p.len() - 1 ==> (#[trigger] p[k]).end == p[k + 1].start
    }
}

/// Whether the tokens `t` lie in source order within the bytes from `from` up
/// to `to`: each holds at least one byte, and each starts at or behind the
/// end of the one before.
pub open spec fn in_source_order(t: Seq<(Token, int, int)>, from: int, to: int) -> bool {
    &&& forall|k: int| 0 <= k < t.len() ==> from <= (#[trigger] t[k]).1 < t[k].2 <= to
    &&& forall|j: int, k: int| 0 <= j < k < t.len() ==> (#[trigger] t[j]).2 <= (#[trigger] t[k]).1
}

/// The longest accepted prefix of at most `n` characters has at most `n`
/// characters, is accepted where it is not empty, and no prefix between it
/// and `n` is accepted.
pub proof fn lemma_longest_accepted(s: Seq<char>, i: int, n: int)
    ensures
        0 <= longest_accepted(s, i, n),
        n >= 0 ==> longest_accepted(s, i, n) <= n,
        longest_accepted(s, i, n) > 0 ==> accepted(
            s.subrange(i, i + longest_accepted(s, i, n)),
        ),
        forall|m: int|
            longest_accepted(s, i, n) < m <= n ==> !accepted(#[trigger] s.subrange(i, i + m)),
    decreases n,
{
    if n > 0 && !accepted(s.subrange(i, i + n)) {
        lemma_longest_accepted(s, i, n - 1);
    }
}

/// A lexeme has at least one character and ends within the input.
pub proof fn lemma_lexeme_len(s: Seq<char>, i: int)
    requires
        0 <= i < s.len(),
    ensures
        1 <= lexeme_len(s, i) <= s.len() - i,
{
    lemma_longest_accepted(s, i, s.len() - i);
}

/// Maximal munch: no rule accepts a prefix of the remaining input that is
/// longer than the lexeme taken, and the lexeme taken is what the rule table
/// makes of its text, unless no prefix at all is accepted.
pub proof fn lemma_maximal_munch(s: Seq<char>, i: int, m: int)
    requires
        0 <= i < s.len(),
        lexeme_len(s, i) < m <= s.len() - i,
    ensures
        !accepted(s.subrange(i, i + m)),
        accepted(s.subrange(i, i + lexeme_len(s, i))) ==> recognise(
            s.subrange(i, i + lexeme_len(s, i)),
        ) == Some(lexeme_at(s, i)),
        !accepted(s.subrange(i, i + lexeme_len(s, i))) ==> lexeme_len(s, i) == 1 && lexeme_at(s, i)
            == Lexeme::Emitted(Token::Error),
{
    lemma_longest_accepted(s, i, s.len() - i);
}

/// Priority: a text that spells a keyword or a truth value is spelled as an
/// identifier is, and the rule table makes the keyword or the truth value of
/// it, never the identifier.
pub proof fn lemma_spelled_words_win(t: Seq<char>)
    requires
        keyword_spelling(t) is Some || boolean_spelling(t) is Some,
    ensures
        is_identifier(t),
        keyword_spelling(t) matches Some(k) ==> recognise(t) == Some(
            Lexeme::Emitted(Token::Keyword(k)),
        ),
        boolean_spelling(t) matches Some(b) ==> recognise(t) == Some(
            Lexeme::Emitted(Token::BoolLiteral(b)),
        ),
{
    lemma_first_char(t);
}

/// The numeric forms lie apart: no text is a literal of two of them. Digits
/// alone are an integer literal and nothing else, and what has a point or an
/// exponent is no integer literal.
pub proof fn lemma_numeric_forms_apart(t: Seq<char>)
    ensures
        is_integer_literal(t) ==> !is_decimal_word(t) && !is_hex_word(t) && !is_binary_word(t)
            && !is_float_literal(t),
        is_decimal_word(t) ==> !is_hex_word(t) && !is_binary_word(t) && !is_float_literal(t),
        is_hex_word(t) ==> !is_binary_word(t) && !is_float_literal(t),
        is_binary_word(t) ==> !is_float_literal(t),
{
    if t.len() >= 1 {
        lemma_run_end(t, 0, CharClass::Digit);
        assert(t.subrange(0, t.len() as int) =~= t);
        lemma_patterns(t, 0, t.len() as int);
        lemma_float_piece(t, 0, t.len() as int);
        if t.len() >= 2 {
            lemma_run_end(t, 2, CharClass::UpperHex);
            lemma_run_end(t, 2, CharClass::Binary);
        }
    }
}

/// The lexemes from `i` on cover the bytes from the offset of `i` to the end
/// of the input.
proof fn lemma_pieces_tile(s: Seq<char>, i: int)
    requires
        0 <= i <= s.len(),
    ensures
        tiles(pieces_from(s, i), byte_offset(s, i), encode_utf8(s).len() as int),
    decreases s.len() - i,
{
    lemma_byte_offset(s, i);
    if i < s.len() {
        let n = lexeme_len(s, i);
        lemma_lexeme_len(s, i);
        lemma_pieces_tile(s, i + n);
        lemma_byte_offset_grows(s, i, i + n);
        let rest = pieces_from(s, i + n);
        let all = pieces_from(s, i);
        assert(all == seq![piece_at(s, i)] + rest);
        assert(all[0] == piece_at(s, i));
        assert forall|k: int| 1 <= k < all.len() implies all[k] == rest[k - 1] by {}
        assert forall|k: int| 0 <= k < all.len() implies (#[trigger] all[k]).start
            < all[k].end by {
            if k > 0 {
                assert(all[k] == rest[k - 1]);
            }
        }
        assert forall|k: int| 0 <= k < all.len() - 1 implies (#[trigger] all[k]).end == all[k
            + 1].start by {
            assert(all[k + 1] == rest[k]);
            if k > 0 {
                assert(all[k] == rest[k - 1]);
            }
        }
        if rest.len() > 0 {
            assert(all[all.len() - 1] == rest[rest.len() - 1]);
        }
    }
}

/// Coverage: the spans of all lexemes of an input, those handed out and
/// those passed over, taken in order, cover the bytes of the input from the
/// first to the last, without gap and without overlap.
pub proof fn lemma_coverage(s: Seq<char>)
    ensures
        tiles(pieces_from(s, 0), 0, encode_utf8(s).len() as int),
{
    lemma_byte_offset(s, 0);
    lemma_pieces_tile(s, 0);
}

/// The tokens among pieces that tile a range lie in source order within it.
proof fn lemma_emitted_in_order(p: Seq<Piece>, from: int, to: int)
    requires
        tiles(p, from, to),
    ensures
        in_source_order(emitted(p), from, to),
    decreases p.len(),
{
    if p.len() > 0 {
        let rest = p.drop_first();
        assert forall|k: int| 0 <= k < rest.len() implies rest[k] == p[k + 1] by {}
        assert(p[0].end <= to) by {
            lemma_tiles_bounds(p, from, to, 0);
        }
        if rest.len() > 0 {
            assert(p[0].end == p[1].start);
            assert(rest[0] == p[1]);
            assert(rest[rest.len() - 1] == p[p.len() - 1]);
            assert forall|k: int| 0 <= k < rest.len() implies (#[trigger] rest[k]).start
                < rest[k].end by {
                assert(rest[k] == p[k + 1]);
            }
            assert forall|k: int| 0 <= k < rest.len() - 1 implies (#[trigger] rest[k]).end
                == rest[k + 1].start by {
                assert(rest[k] == p[k + 1]);
                assert(rest[k + 1] == p[k + 2]);
            }
        }
        assert(tiles(rest, p[0].end, to));
        lemma_emitted_in_order(rest, p[0].end, to);
        let tail = emitted(rest);
        match p[0].lexeme {
            Lexeme::Emitted(t) => {
                let all = emitted(p);
                assert(all == seq![(t, p[0].start, p[0].end)] + tail);
                assert forall|k: int| 1 <= k < all.len() implies all[k] == tail[k - 1] by {}
                assert forall|k: int| 0 <= k < all.len() implies from <= (#[trigger] all[k]).1
                    < all[k].2 <= to by {
                    if k > 0 {
                        assert(all[k] == tail[k - 1]);
                    }
                }
                assert forall|j: int, k: int| 0 <= j < k < all.len() implies (#[trigger] all[j]).2
                    <= (#[trigger] all[k]).1 by {
                    assert(all[k] == tail[k - 1]);
                    if j > 0 {
                        assert(all[j] == tail[j - 1]);
                    }
                }
            },
            Lexeme::Elided => {},
        }
    }
}

/// Each of the pieces that tile a range lies within the range.
proof fn lemma_tiles_bounds(p: Seq<Piece>, from: int, to: int, k: int)
    requires
        tiles(p, from, to),
        0 <= k < p.len(),
    ensures
        from <= p[k].start < p[k].end <= to,
    decreases p.len() - k,
{
    if k > 0 {
        lemma_tiles_start(p, from, to, k);
    }
    if k < p.len() - 1 {
        lemma_tiles_bounds(p, from, to, k + 1);
        assert(p[k].end == p[k + 1].start);
    }
}

/// Each of the pieces that tile a range starts at or behind the start of the
/// range.
proof fn lemma_tiles_start(p: Seq<Piece>, from: int, to: int, k: int)
    requires
        tiles(p, from, to),
        0 <= k < p.len(),
    ensures
        from <= p[k].start,
    decreases k,
{
    if k > 0 {
        lemma_tiles_start(p, from, to, k - 1);
        assert(p[k - 1].end == p[k].start);
        assert(p[k - 1].start < p[k - 1].end);
    }
}

/// Source order: the tokens of an input lie within it, each holds at least
/// one byte, and none starts before the one before it has ended.
pub proof fn lemma_tokens_in_source_order(s: Seq<char>)
    ensures
        in_source_order(tokens(s), 0, encode_utf8(s).len() as int),
{
    lemma_coverage(s);
    lemma_emitted_in_order(pieces_from(s, 0), 0, encode_utf8(s).len() as int);
}

/// No comment comes out as a token: the rule table makes of no text the
/// token `Comment`.
pub proof fn lemma_no_comment_token(s: Seq<char>, k: int)
    requires
        0 <= k < tokens(s).len(),
    ensures
        tokens(s)[k].0 != Token::Comment,
{
    let j = lemma_token_origin(s, 0, k);
    lemma_longest_accepted(s, j, s.len() - j);
}

/// Each token of the input from `i` on is the lexeme at some character `j`,
/// with the bytes from the offset of `j` to that of the end of the lexeme.
proof fn lemma_token_origin(s: Seq<char>, i: int, k: int) -> (j: int)
    requires
        0 <= i <= s.len(),
        0 <= k < emitted(pieces_from(s, i)).len(),
    ensures
        i <= j < s.len(),
        lexeme_at(s, j) == Lexeme::Emitted(emitted(pieces_from(s, i))[k].0),
        emitted(pieces_from(s, i))[k].1 == byte_offset(s, j),
        emitted(pieces_from(s, i))[k].2 == byte_offset(s, j + lexeme_len(s, j)),
    decreases s.len() - i,
{
    let n = lexeme_len(s, i);
    lemma_lexeme_len(s, i);
    let rest = pieces_from(s, i + n);
    let all = pieces_from(s, i);
    assert(all == seq![piece_at(s, i)] + rest);
    assert(all.drop_first() =~= rest);
    assert(all[0] == piece_at(s, i));
    match lexeme_at(s, i) {
        Lexeme::Emitted(t) => {
            if k == 0 {
                i
            } else {
                lemma_token_origin(s, i + n, k - 1)
            }
        },
        Lexeme::Elided => lemma_token_origin(s, i + n, k),
    }
}

/// The text between the byte offsets of two characters is the characters
/// between the two.
pub proof fn lemma_source_slice(s: Seq<char>, i: int, j: int)
    requires
        0 <= i <= j <= s.len(),
    ensures
        source_slice(s, byte_offset(s, i), byte_offset(s, j)) == s.subrange(i, j),
        byte_offset(s, j) - byte_offset(s, i) == encode_utf8(s.subrange(i, j)).len(),
{
    let a = s.take(i);
    let t = s.subrange(i, j);
    let z = s.skip(j);
    assert(s.take(j) =~= a + t);
    assert(s =~= (a + t) + z);
    lemma_encode_concat(a, t);
    lemma_encode_concat(a + t, z);
    assert(encode_utf8(s).subrange(byte_offset(s, i), byte_offset(s, j)) =~= encode_utf8(t));
    encode_utf8_decode_utf8(t);
}

/// A lexeme taken by itself is read as it was read in its place.
proof fn lemma_lexeme_alone(s: Seq<char>, i: int)
    requires
        0 <= i < s.len(),
    ensures
        pieces_from(s.subrange(i, i + lexeme_len(s, i)), 0) == seq![
            Piece {
                lexeme: lexeme_at(s, i),
                start: 0,
                end: encode_utf8(s.subrange(i, i + lexeme_len(s, i))).len() as int,
            },
        ],
{
    let n = lexeme_len(s, i);
    lemma_lexeme_len(s, i);
    lemma_longest_accepted(s, i, s.len() - i);
    let t = s.subrange(i, i + n);
    assert(t.subrange(0, n) =~= t);
    assert(t.len() - 0 == n);
    lemma_longest_accepted(t, 0, n);
    if longest_accepted(s, i, s.len() - i) <= 0 {
        assert(!accepted(s.subrange(i, i + 1)));
        assert(longest_accepted(t, 0, n) == 0);
    } else {
        assert(accepted(t));
        assert(longest_accepted(t, 0, n) == n);
    }
    assert(lexeme_len(t, 0) == n);
    assert(lexeme_at(t, 0) == lexeme_at(s, i));
    lemma_byte_offset(t, 0);
    assert(pieces_from(t, n) =~= Seq::<Piece>::empty());
    assert(pieces_from(t, 0) =~= seq![piece_at(t, 0)]);
}

/// Round trip: the text of any token of any input, tokenized by itself,
/// gives that one token again, of the same kind and with the same payload,
/// spanning the whole text.
pub proof fn lemma_retokenize(s: Seq<char>, k: int)
    requires
        0 <= k < tokens(s).len(),
    ensures
        tokens(source_slice(s, tokens(s)[k].1, tokens(s)[k].2)) == seq![
            (tokens(s)[k].0, 0int, tokens(s)[k].2 - tokens(s)[k].1),
        ],
{
    let j = lemma_token_origin(s, 0, k);
    let n = lexeme_len(s, j);
    lemma_lexeme_len(s, j);
    lemma_source_slice(s, j, j + n);
    lemma_lexeme_alone(s, j);
    let t = s.subrange(j, j + n);
    let p = pieces_from(t, 0);
    assert(source_slice(s, tokens(s)[k].1, tokens(s)[k].2) == t);
    assert(p.len() == 1);
    assert(p[0].lexeme == Lexeme::Emitted(tokens(s)[k].0));
    assert(p.drop_first() =~= Seq::<Piece>::empty());
    assert(emitted(p.drop_first()) =~= Seq::<(Token, int, int)>::empty());
    assert(emitted(p) =~= seq![(tokens(s)[k].0, 0int, tokens(s)[k].2 - tokens(s)[k].1)]);
}

} // verus!
