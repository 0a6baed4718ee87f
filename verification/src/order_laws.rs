//! How texts are ordered and where they can be split.

use vstd::prelude::*;
use vstd::utf8::*;

use crate::scripts::{is_splittable, is_splittable_line, is_white, lines, splits, trimmed, width};
use crate::text::{
    id_less, lemma_id_less_asymmetric, lemma_id_less_total, lower, lower_char, precedes_at,
};

verus! {

/// Lower case changes the letters from `A` to `Z` and nothing else, each to the letter from `a` to
/// `z` in the same place, and keeps every character in its place.
pub proof fn law_only_capitals_change(text: Seq<char>)
    ensures
        lower(text).len() == text.len(),
        forall|k: int|
            0 <= k < text.len() ==> {
                let c = text[k] as u32;
                let d = #[trigger] lower(text)[k] as u32;
                if 0x41 <= c && c <= 0x5a {
                    d == c + 0x20
                } else {
                    d == c
                }
            },
{
    assert forall|k: int| 0 <= k < text.len() implies ({
        let c = text[k] as u32;
        let d = #[trigger] lower(text)[k] as u32;
        if 0x41 <= c && c <= 0x5a {
            d == c + 0x20
        } else {
            d == c
        }
    }) by {
        assert(lower(text)[k] == lower_char(text[k]));
    }
}

/// White space is what Unicode counts as such: tabulator, line feed, line tabulation, form feed,
/// carriage return, space, next line and the spaces and separators of other scripts.
pub proof fn law_white_space_is_that_of_unicode(c: char)
    ensures
        is_white(c) <==> {
            ||| c == '\t' || c == '\n' || c == '\u{b}' || c == '\u{c}' || c == '\r' || c == ' '
            ||| c == '\u{85}' || c == '\u{a0}' || c == '\u{1680}'
            ||| c == '\u{2000}' || c == '\u{2001}' || c == '\u{2002}' || c == '\u{2003}'
            ||| c == '\u{2004}' || c == '\u{2005}' || c == '\u{2006}' || c == '\u{2007}'
            ||| c == '\u{2008}' || c == '\u{2009}' || c == '\u{200a}'
            ||| c == '\u{2028}' || c == '\u{2029}' || c == '\u{202f}' || c == '\u{205f}'
            ||| c == '\u{3000}'
        },
{
}

proof fn lemma_encode_both(a: Seq<char>, b: Seq<char>)
    ensures
        encode_utf8(a + b) == encode_utf8(a) + encode_utf8(b),
    decreases a.len(),
{
    if a.len() == 0 {
        assert(a + b =~= b);
        assert(encode_utf8(a) + encode_utf8(b) =~= encode_utf8(b));
    } else {
        assert((a + b).drop_first() =~= a.drop_first() + b);
        lemma_encode_both(a.drop_first(), b);
        assert(encode_utf8(a + b) =~= encode_utf8(a) + encode_utf8(b));
    }
}

proof fn lemma_encode_one(c: char)
    ensures
        encode_utf8(seq![c]) == encode_scalar(c as u32),
        encode_scalar(c as u32).len() == width(c),
{
    assert(seq![c].drop_first() =~= Seq::<char>::empty());
    assert(encode_utf8(Seq::<char>::empty()) =~= seq![]);
    assert(encode_utf8(seq![c]) =~= encode_scalar(c as u32));
    char_is_scalar(c);
}

/// The code of a smaller character has the smaller byte where the two first differ.
proof fn lemma_scalar_order(c: char, d: char) -> (i: int)
    requires
        (c as u32) < (d as u32),
    ensures
        precedes_at(encode_scalar(c as u32), encode_scalar(d as u32), i),
        i < encode_scalar(c as u32).len(),
{
    let a = c as u32;
    let b = d as u32;
    char_is_scalar(c);
    char_is_scalar(d);
    assert(a <= 0x7F ==> (a & 0x7F) as u8 == a as u8 && ((a & 0x7F) as u8) <= 0x7F) by (bit_vector);
    assert(b <= 0x7F ==> (b & 0x7F) as u8 == b as u8) by (bit_vector);
    assert(a < b && b <= 0x7F ==> (a as u8) < (b as u8)) by (bit_vector);
    assert(0xC0 <= (0xC0u8 | ((a >> 6) & 0x1F) as u8) && (0xC0u8 | ((a >> 6) & 0x1F) as u8) <= 0xDF)
        by (bit_vector);
    assert(0xC0 <= (0xC0u8 | ((b >> 6) & 0x1F) as u8) && (0xC0u8 | ((b >> 6) & 0x1F) as u8) <= 0xDF)
        by (bit_vector);
    assert(0xE0 <= (0xE0u8 | ((a >> 12) & 0x0F) as u8) && (0xE0u8 | ((a >> 12) & 0x0F) as u8)
        <= 0xEF) by (bit_vector);
    assert(0xE0 <= (0xE0u8 | ((b >> 12) & 0x0F) as u8) && (0xE0u8 | ((b >> 12) & 0x0F) as u8)
        <= 0xEF) by (bit_vector);
    assert(0xF0 <= (0xF0u8 | ((b >> 18) & 0x7) as u8)) by (bit_vector);
    if has_width_2_encoding(a) && has_width_2_encoding(b) {
        assert(0x80 <= a && a < b && b <= 0x7FF ==> (0xC0u8 | ((a >> 6) & 0x1F) as u8) < (0xC0u8
            | ((b >> 6) & 0x1F) as u8) || ((0xC0u8 | ((a >> 6) & 0x1F) as u8) == (0xC0u8 | ((b
            >> 6) & 0x1F) as u8) && (0x80u8 | (a & 0x3F) as u8) < (0x80u8 | (b & 0x3F) as u8)))
            by (bit_vector);
        if leading_byte_width_2(a) < leading_byte_width_2(b) {
            0
        } else {
            1
        }
    } else if has_width_3_encoding(a) && has_width_3_encoding(b) {
        assert(0x800 <= a && a < b && b <= 0xFFFF ==> (0xE0u8 | ((a >> 12) & 0x0F) as u8) < (0xE0u8
            | ((b >> 12) & 0x0F) as u8) || ((0xE0u8 | ((a >> 12) & 0x0F) as u8) == (0xE0u8 | ((b
            >> 12) & 0x0F) as u8) && ((0x80u8 | ((a >> 6) & 0x3F) as u8) < (0x80u8 | ((b >> 6)
            & 0x3F) as u8) || ((0x80u8 | ((a >> 6) & 0x3F) as u8) == (0x80u8 | ((b >> 6)
            & 0x3F) as u8) && (0x80u8 | (a & 0x3F) as u8) < (0x80u8 | (b & 0x3F) as u8)))))
            by (bit_vector);
        if leading_byte_width_3(a) < leading_byte_width_3(b) {
            0
        } else if second_last_continuation_byte(a) < second_last_continuation_byte(b) {
            1
        } else {
            2
        }
    } else if has_width_4_encoding(a) && has_width_4_encoding(b) {
        assert(0x10000 <= a && a < b && b <= 0x10FFFF ==> (0xF0u8 | ((a >> 18) & 0x7) as u8) < (
        0xF0u8 | ((b >> 18) & 0x7) as u8) || ((0xF0u8 | ((a >> 18) & 0x7) as u8) == (0xF0u8 | ((b
            >> 18) & 0x7) as u8) && ((0x80u8 | ((a >> 12) & 0x3F) as u8) < (0x80u8 | ((b >> 12)
            & 0x3F) as u8) || ((0x80u8 | ((a >> 12) & 0x3F) as u8) == (0x80u8 | ((b >> 12)
            & 0x3F) as u8) && ((0x80u8 | ((a >> 6) & 0x3F) as u8) < (0x80u8 | ((b >> 6)
            & 0x3F) as u8) || ((0x80u8 | ((a >> 6) & 0x3F) as u8) == (0x80u8 | ((b >> 6)
            & 0x3F) as u8) && (0x80u8 | (a & 0x3F) as u8) < (0x80u8 | (b & 0x3F) as u8)))))))
            by (bit_vector);
        if leading_byte_width_4(a) < leading_byte_width_4(b) {
            0
        } else if third_last_continuation_byte(a) < third_last_continuation_byte(b) {
            1
        } else if second_last_continuation_byte(a) < second_last_continuation_byte(b) {
            2
        } else {
            3
        }
    } else {
        0
    }
}

/// Of two texts that first differ in a character, that with the smaller one comes first; of two of
/// which one begins with the other, the shorter.
pub proof fn law_texts_are_ordered_by_their_characters(
    front: Seq<char>,
    c: char,
    d: char,
    x: Seq<char>,
    y: Seq<char>,
)
    ensures
        (c as u32) < (d as u32) ==> id_less(front + seq![c] + x, front + seq![d] + y),
        x.len() > 0 ==> id_less(front, front + x),
{
    let p = encode_utf8(front);
    if (c as u32) < (d as u32) {
        let a = front + seq![c] + x;
        let b = front + seq![d] + y;
        lemma_encode_both(front + seq![c], x);
        lemma_encode_both(front, seq![c]);
        lemma_encode_both(front + seq![d], y);
        lemma_encode_both(front, seq![d]);
        lemma_encode_one(c);
        lemma_encode_one(d);
        let i = lemma_scalar_order(c, d);
        let s = encode_scalar(c as u32);
        let t = encode_scalar(d as u32);
        assert(encode_utf8(a) =~= p + s + encode_utf8(x));
        assert(encode_utf8(b) =~= p + t + encode_utf8(y));
        let n = p.len() + i;
        assert forall|k: int| 0 <= k < n implies encode_utf8(a)[k] == encode_utf8(b)[k] by {
            if k >= p.len() {
                assert(encode_utf8(a)[k] == s[k - p.len()]);
                assert(encode_utf8(b)[k] == t[k - p.len()]);
            }
        }
        assert(encode_utf8(a)[n] == s[i]);
        assert(encode_utf8(b)[n] == t[i]);
        assert(precedes_at(encode_utf8(a), encode_utf8(b), n));
    }
    if x.len() > 0 {
        lemma_encode_both(front, x);
        let first = encode_scalar(x[0] as u32);
        lemma_encode_one(x[0]);
        assert(encode_utf8(x) == first + encode_utf8(x.drop_first()));
        assert(encode_utf8(x).len() > 0);
        assert(precedes_at(p, encode_utf8(front + x), p.len() as int));
    }
}

/// No text comes before itself, and of two different texts one comes before the other.
pub proof fn law_order_is_total(a: Seq<char>, b: Seq<char>)
    ensures
        !id_less(a, a),
        a != b ==> id_less(a, b) || id_less(b, a),
        !(id_less(a, b) && id_less(b, a)),
{
    lemma_id_less_asymmetric(a, a);
    lemma_id_less_asymmetric(a, b);
    lemma_id_less_total(a, b);
}

/// A character is as wide as its code in UTF-8 is long.
pub proof fn law_width_is_that_of_the_code(c: char)
    ensures
        width(c) == encode_utf8(seq![c]).len(),
{
    lemma_encode_one(c);
}

/// A text can be split after some bytes just if it is no longer than that, or if some of its
/// characters from the front take just as many.
pub proof fn law_texts_are_split_between_characters(text: Seq<char>, at: nat)
    ensures
        splits(text, at) <==> encode_utf8(text).len() <= at || exists|n: int|
            0 <= n <= text.len() && #[trigger] encode_utf8(text.take(n)).len() == at,
    decreases text.len(),
{
    assert(text.take(0) =~= Seq::empty());
    assert(encode_utf8(text.take(0)).len() == 0);
    assert(encode_utf8(Seq::<char>::empty()).len() == 0);
    if text.len() > 0 {
        let first = seq![text[0]];
        let rest = text.skip(1);
        let w = width(text[0]);
        lemma_encode_one(text[0]);
        assert(text =~= first + rest);
        lemma_encode_both(first, rest);
        assert forall|n: int| 1 <= n <= text.len() implies #[trigger] encode_utf8(
            text.take(n),
        ).len() == w + encode_utf8(rest.take(n - 1)).len() by {
            assert(text.take(n) =~= first + rest.take(n - 1));
            lemma_encode_both(first, rest.take(n - 1));
        }
        if at > 0 && w <= at {
            let less = (at - w) as nat;
            law_texts_are_split_between_characters(rest, less);
            if exists|n: int| 0 <= n <= rest.len() && #[trigger] encode_utf8(rest.take(n)).len()
                == less {
                let n = choose|n: int|
                    0 <= n <= rest.len() && #[trigger] encode_utf8(rest.take(n)).len() == less;
                assert(encode_utf8(text.take(n + 1)).len() == at);
            }
            assert forall|n: int|
                0 <= n <= text.len() && #[trigger] encode_utf8(text.take(n)).len()
                    == at implies splits(text, at) by {
                assert(n > 0);
                assert(encode_utf8(rest.take(n - 1)).len() == less);
            }
        } else if at > 0 {
            assert forall|n: int| 0 <= n <= text.len() implies #[trigger] encode_utf8(
                text.take(n),
            ).len() != at by {}
        }
    }
}

/// A script can be searched just if each of its lines is a comment or can be split after the
/// eight bytes behind its indentation.
pub proof fn law_scripts_are_searched_line_by_line(text: Seq<char>)
    ensures
        is_splittable(text) <==> forall|i: int|
            0 <= i < lines(text).len() ==> {
                let command = trimmed(#[trigger] lines(text)[i]);
                (command.len() > 0 && command[0] == ';') || splits(command, 8)
            },
{
    let script = lines(text);
    if is_splittable(text) {
        assert forall|i: int| 0 <= i < script.len() implies ({
            let command = trimmed(#[trigger] script[i]);
            (command.len() > 0 && command[0] == ';') || splits(command, 8)
        }) by {
            assert(is_splittable_line(script[i]));
        }
    }
}

} // verus!
