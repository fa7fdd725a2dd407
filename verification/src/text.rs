//! Strings and their UTF-8 bytes.

use vstd::prelude::*;
use vstd::utf8::*;
use vstd::string::*;
use crate::scan::{position, lemma_position, lemma_position_is_first, find_byte, bytes_eq};

verus! {

/// Reads a byte slice as a string slice.
///
/// Calls `std::str::from_utf8`. Believed of it, as its documentation says: it
/// returns a string slice exactly when the bytes are valid UTF-8, and that
/// slice then covers the very same bytes.
#[verifier::external_body]
pub(crate) fn utf8_str<'a>(bytes: &'a [u8]) -> (r: Option<&'a str>)
    ensures
        r is Some <==> valid_utf8(bytes@),
        r is Some ==> r->0.spec_bytes() == bytes@,
{
    match std::str::from_utf8(bytes) {
        Ok(s) => Some(s),
        Err(_) => None,
    }
}

/// Two strings with the same UTF-8 bytes are the same string.
pub proof fn lemma_same_bytes_same_text(a: Seq<char>, b: Seq<char>)
    requires
        encode_utf8(a) == encode_utf8(b),
    ensures
        a == b,
{
    encode_utf8_decode_utf8(a);
    encode_utf8_decode_utf8(b);
}

/// Whether two string slices hold the same text.
pub fn str_eq(a: &str, b: &str) -> (r: bool)
    ensures
        r == (a@ == b@),
{
    let r = bytes_eq(a.as_bytes(), b.as_bytes());
    proof {
        if r {
            lemma_same_bytes_same_text(a@, b@);
        }
    }
    r
}

/// Cutting valid UTF-8 at an ASCII byte, and dropping that byte, leaves valid
/// UTF-8 on both sides.
pub proof fn lemma_cut_at_ascii(s: Seq<u8>, i: int)
    requires
        valid_utf8(s),
        0 <= i < s.len(),
        s[i] < 0x80,
    ensures
        valid_utf8(s.subrange(0, i)),
        valid_utf8(s.subrange(i + 1, s.len() as int)),
{
    is_char_boundary_iff_not_is_continuation_byte(s, i);
    valid_utf8_split(s, i);
    let t = s.subrange(i, s.len() as int);
    assert(t[0] == s[i]);
    assert(pop_first_scalar(t) =~= s.subrange(i + 1, s.len() as int));
}

proof fn lemma_marked_bytes(y: u8)
    by (bit_vector)
    ensures
        0x80u8 | y >= 0x80,
        0xC0u8 | y >= 0x80,
        0xE0u8 | y >= 0x80,
        0xF0u8 | y >= 0x80,
{
}

proof fn lemma_ascii_scalar(c: u32)
    by (bit_vector)
    requires
        c <= 0x7f,
    ensures
        ((c & 0x7F) as u8) as u32 == c,
{
}

/// The UTF-8 bytes of one character, held against an ASCII byte `b`: the
/// character `b` is encoded as that single byte, and the encoding of any
/// other character holds no `b`.
pub proof fn lemma_char_bytes(c: char, b: u8)
    requires
        b < 0x80,
    ensures
        c == b as char ==> encode_scalar(c as u32) == seq![b],
        c != b as char ==> !encode_scalar(c as u32).contains(b),
{
    let scalar = c as u32;
    let bytes = encode_scalar(scalar);
    char_is_scalar(c);
    if has_width_1_encoding(scalar) {
        lemma_ascii_scalar(scalar);
        assert(bytes[0] as u32 == scalar);
        if c == b as char {
            assert(bytes =~= seq![b]);
        } else {
            assert(scalar != b as u32) by {
                char_u32_cast(c, scalar);
            }
            assert forall|j: int| 0 <= j < bytes.len() implies bytes[j] != b by {}
        }
    } else {
        assert(c != b as char);
        lemma_marked_bytes(((scalar >> 6) & 0x1F) as u8);
        lemma_marked_bytes(((scalar >> 12) & 0x0F) as u8);
        lemma_marked_bytes(((scalar >> 18) & 0x7) as u8);
        lemma_marked_bytes((scalar & 0x3F) as u8);
        lemma_marked_bytes(((scalar >> 6) & 0x3F) as u8);
        lemma_marked_bytes(((scalar >> 12) & 0x3F) as u8);
        assert forall|j: int| 0 <= j < bytes.len() implies bytes[j] != b by {}
    }
}

/// Up to the first ASCII byte `b`, the UTF-8 bytes of a text are the bytes of
/// the text up to its first character `b`.
pub proof fn lemma_ascii_prefix(chars: Seq<char>, b: u8)
    requires
        b < 0x80,
    ensures
        encode_utf8(chars).subrange(0, position(encode_utf8(chars), b)) == encode_utf8(
            chars.take(position(chars, b as char)),
        ),
    decreases chars.len(),
{
    let bytes = encode_utf8(chars);
    if chars.len() == 0 {
        assert(bytes.subrange(0, 0) =~= encode_utf8(chars.take(0)));
    } else {
        let c = chars[0];
        let rest = chars.drop_first();
        let first = encode_scalar(c as u32);
        let tail = encode_utf8(rest);
        lemma_char_bytes(c, b);
        if c == b as char {
            assert(bytes[0] == b);
            assert(bytes.subrange(0, 0) =~= encode_utf8(chars.take(0)));
        } else {
            lemma_ascii_prefix(rest, b);
            lemma_position_is_first(tail, b);
            lemma_position_is_first(rest, b as char);
            let i = position(tail, b);
            let k = position(rest, b as char);
            assert forall|j: int| 0 <= j < first.len() + i implies bytes[j] != b by {
                if j < first.len() {
                    assert(first.contains(first[j]));
                } else {
                    assert(bytes[j] == tail[j - first.len()]);
                }
            }
            assert(first.len() + i < bytes.len() ==> bytes[first.len() + i] == tail[i]);
            lemma_position(bytes, b, first.len() + i);
            assert(chars.take(k + 1).drop_first() =~= rest.take(k));
            assert(bytes.subrange(0, first.len() + i) =~= first + tail.subrange(0, i));
        }
    }
}

/// The part of `s` before its first `b`, an ASCII byte; all of `s` where it
/// holds none.
pub fn prefix_before<'a>(s: &'a str, b: u8) -> (r: &'a str)
    requires
        b < 0x80,
    ensures
        r@ == s@.take(position(s@, b as char)),
{
    let bytes = s.as_bytes();
    let i = find_byte(bytes, 0, b);
    proof {
        assert(bytes@.subrange(0, bytes.len() as int) =~= bytes@);
        encode_utf8_valid_utf8(s@);
        lemma_position_is_first(bytes@, b);
        if i < bytes.len() {
            is_char_boundary_iff_not_is_continuation_byte(bytes@, i as int);
        } else {
            is_char_boundary_start_end_of_seq(bytes@);
        }
    }
    let (head, _) = s.split_at(i);
    proof {
        lemma_ascii_prefix(s@, b);
        lemma_same_bytes_same_text(head@, s@.take(position(s@, b as char)));
    }
    head
}

/// The character that stands for the digit `d`.
pub open spec fn digit_char(d: int) -> char {
    if d == 0 {
        '0'
    } else if d == 1 {
        '1'
    } else if d == 2 {
        '2'
    } else if d == 3 {
        '3'
    } else if d == 4 {
        '4'
    } else if d == 5 {
        '5'
    } else if d == 6 {
        '6'
    } else if d == 7 {
        '7'
    } else if d == 8 {
        '8'
    } else {
        '9'
    }
}

/// The decimal digits of `n`, without leading zeros; `0` for 0.
pub open spec fn digits(n: nat) -> Seq<char>
    decreases n,
{
    if n < 10 {
        seq![digit_char(n as int)]
    } else {
        digits(n / 10) + seq![digit_char((n % 10) as int)]
    }
}

/// The number `n` in decimal, with `-` before the digits of a negative one.
pub open spec fn decimal(n: int) -> Seq<char> {
    if n < 0 {
        seq!['-'] + digits((-n) as nat)
    } else {
        digits(n as nat)
    }
}

fn digit_str(d: u32) -> (r: &'static str)
    requires
        d < 10,
    ensures
        r@ == seq![digit_char(d as int)],
{
    proof {
        reveal_strlit("0");
        reveal_strlit("1");
        reveal_strlit("2");
        reveal_strlit("3");
        reveal_strlit("4");
        reveal_strlit("5");
        reveal_strlit("6");
        reveal_strlit("7");
        reveal_strlit("8");
        reveal_strlit("9");
    }
    let r = match d {
        0 => "0",
        1 => "1",
        2 => "2",
        3 => "3",
        4 => "4",
        5 => "5",
        6 => "6",
        7 => "7",
        8 => "8",
        _ => "9",
    };
    assert(r@ =~= seq![digit_char(d as int)]);
    r
}

fn append_digits(text: &mut String, n: u32)
    ensures
        final(text)@ == old(text)@ + digits(n as nat),
    decreases n,
{
    if n >= 10 {
        append_digits(text, n / 10);
    }
    text.append(digit_str(n % 10));
    assert(text@ =~= old(text)@ + digits(n as nat));
}

/// Appends the number `n` in decimal to `text`.
pub fn append_decimal(text: &mut String, n: i32)
    ensures
        final(text)@ == old(text)@ + decimal(n as int),
{
    if n < 0 {
        proof {
            reveal_strlit("-");
        }
        text.append("-");
        append_digits(text, (-(n as i64)) as u32);
        assert(text@ =~= old(text)@ + decimal(n as int));
    } else {
        append_digits(text, n as u32);
    }
}

} // verus!
