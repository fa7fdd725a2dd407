//! The `application/x-www-form-urlencoded` syntax. The body of an incoming
//! request is read as raw bytes: segments separated by `&`, each split at its
//! first `=`, and nothing is percent-decoded. An outgoing pair is written by
//! the serializer of `url`.

use vstd::prelude::*;
use vstd::slice::slice_subrange;
use vstd::utf8::{valid_utf8, encode_utf8, pop_first_scalar, valid_utf8_concat};
use crate::scan::{position, lemma_position, lemma_position_is_first, find_byte, bytes_eq};
use crate::text::{digit_char, lemma_cut_at_ascii};

verus! {

/// The byte `&`, which separates the segments of a body.
pub const AMPERSAND: u8 = 0x26;

/// The byte `=`, which separates a segment's key from its value.
pub const EQUALS: u8 = 0x3d;

/// The segments of `body`: the pieces between its `&` bytes, in order. A body
/// without `&` is one segment; an empty body is one empty segment.
pub open spec fn segments(body: Seq<u8>) -> Seq<Seq<u8>>
    decreases body.len(),
{
    let i = position(body, AMPERSAND);
    if 0 <= i < body.len() {
        seq![body.subrange(0, i)] + segments(body.subrange(i + 1, body.len() as int))
    } else {
        seq![body]
    }
}

/// What `segment` gives for `key`: the bytes after its first `=`, where the
/// bytes before that `=` are exactly `key`. A segment without `=` gives
/// nothing for any key.
pub open spec fn segment_value(segment: Seq<u8>, key: Seq<u8>) -> Option<Seq<u8>> {
    let i = position(segment, EQUALS);
    if i < segment.len() && segment.subrange(0, i) == key {
        Some(segment.subrange(i + 1, segment.len() as int))
    } else {
        None
    }
}

/// The value of the last segment that gives one for `key`.
pub open spec fn last_value(segments: Seq<Seq<u8>>, key: Seq<u8>) -> Option<Seq<u8>>
    decreases segments.len(),
{
    if segments.len() == 0 {
        None
    } else {
        match segment_value(segments.last(), key) {
            Some(v) => Some(v),
            None => last_value(segments.drop_last(), key),
        }
    }
}

/// The raw value that `body` holds for `key`. Where a key occurs more than
/// once, the last occurrence counts.
pub open spec fn form_value(body: Seq<u8>, key: Seq<u8>) -> Option<Seq<u8>> {
    last_value(segments(body), key)
}

/// `later` where it holds a value, else `earlier`.
pub open spec fn prefer(later: Option<Seq<u8>>, earlier: Option<Seq<u8>>) -> Option<Seq<u8>> {
    match later {
        Some(v) => Some(v),
        None => earlier,
    }
}

/// The bytes of a slice that may be absent.
pub open spec fn slice_view(s: Option<&[u8]>) -> Option<Seq<u8>> {
    match s {
        Some(v) => Some(v@),
        None => None,
    }
}

proof fn lemma_last_value_cons(head: Seq<u8>, rest: Seq<Seq<u8>>, key: Seq<u8>)
    ensures
        last_value(seq![head] + rest, key) == prefer(
            last_value(rest, key),
            segment_value(head, key),
        ),
    decreases rest.len(),
{
    let all = seq![head] + rest;
    if rest.len() == 0 {
        assert(all.last() == head);
        assert(all.drop_last() =~= rest);
        assert(last_value(all.drop_last(), key) is None);
    } else {
        assert(all.last() == rest.last());
        assert(all.drop_last() =~= seq![head] + rest.drop_last());
        lemma_last_value_cons(head, rest.drop_last(), key);
    }
}

/// The value that one segment gives for `key`, if any.
pub fn segment_lookup<'a>(segment: &'a [u8], key: &[u8]) -> (r: Option<&'a [u8]>)
    ensures
        slice_view(r) == segment_value(segment@, key@),
{
    let eq = find_byte(segment, 0, EQUALS);
    assert(segment@.subrange(0, segment.len() as int) =~= segment@);
    if eq < segment.len() && bytes_eq(slice_subrange(segment, 0, eq), key) {
        Some(slice_subrange(segment, eq + 1, segment.len()))
    } else {
        None
    }
}

/// The raw value that `body` holds for `key`, as a part of `body`.
pub fn lookup<'a>(body: &'a [u8], key: &[u8]) -> (r: Option<&'a [u8]>)
    ensures
        slice_view(r) == form_value(body@, key@),
{
    let mut found: Option<&'a [u8]> = None;
    let mut start: usize = 0;
    assert(body@.subrange(0, body.len() as int) =~= body@);
    loop
        invariant
            start <= body.len(),
            form_value(body@, key@) == prefer(
                last_value(segments(body@.subrange(start as int, body.len() as int)), key@),
                slice_view(found),
            ),
        decreases body.len() - start,
    {
        let end = find_byte(body, start, AMPERSAND);
        let segment = slice_subrange(body, start, end);
        let ghost rest = body@.subrange(start as int, body.len() as int);
        match segment_lookup(segment, key) {
            Some(v) => {
                found = Some(v);
            },
            None => {},
        }
        if end == body.len() {
            proof {
                assert(segment@ =~= rest);
                assert(segments(rest) =~= seq![rest]);
                lemma_last_value_cons(rest, Seq::empty(), key@);
                assert(seq![rest] + Seq::<Seq<u8>>::empty() =~= seq![rest]);
            }
            return found;
        }
        proof {
            let i = end - start;
            let tail = body@.subrange(end + 1, body.len() as int);
            assert(rest.subrange(0, i) =~= segment@);
            assert(rest.subrange(i + 1, rest.len() as int) =~= tail);
            lemma_last_value_cons(segment@, segments(tail), key@);
        }
        start = end + 1;
    }
}

/// The segment that holds one pair: the key, `=`, the value.
pub open spec fn pair_segment(pair: (Seq<u8>, Seq<u8>)) -> Seq<u8> {
    pair.0 + seq![EQUALS] + pair.1
}

/// The body made of `segments`, with `&` between each two.
pub open spec fn join(segments: Seq<Seq<u8>>) -> Seq<u8>
    decreases segments.len(),
{
    if segments.len() == 0 {
        Seq::empty()
    } else if segments.len() == 1 {
        segments[0]
    } else {
        segments[0] + seq![AMPERSAND] + join(segments.drop_first())
    }
}

/// The value of the last of `pairs` whose key is `key`.
pub open spec fn last_pair_value(pairs: Seq<(Seq<u8>, Seq<u8>)>, key: Seq<u8>) -> Option<Seq<u8>>
    decreases pairs.len(),
{
    if pairs.len() == 0 {
        None
    } else if pairs.last().0 == key {
        Some(pairs.last().1)
    } else {
        last_pair_value(pairs.drop_last(), key)
    }
}

/// A segment hands over everything after its first `=`, later `=` bytes
/// included: the value is never split again. And it does so for its own key
/// only.
pub proof fn law_value_keeps_later_equals(pair: (Seq<u8>, Seq<u8>), key: Seq<u8>)
    requires
        !pair.0.contains(EQUALS),
    ensures
        segment_value(pair_segment(pair), key) == if pair.0 == key {
            Some(pair.1)
        } else {
            None
        },
{
    let segment = pair_segment(pair);
    let n = pair.0.len() as int;
    assert forall|j: int| 0 <= j < n implies segment[j] != EQUALS by {
        assert(pair.0.contains(pair.0[j]));
    }
    lemma_position(segment, EQUALS, n);
    assert(segment.subrange(0, n) =~= pair.0);
    assert(segment.subrange(n + 1, segment.len() as int) =~= pair.1);
}

/// Segments that hold no `&`, joined by `&`, are the segments of the body
/// that they make.
pub proof fn law_segments_of_join(parts: Seq<Seq<u8>>)
    requires
        parts.len() > 0,
        forall|k: int| 0 <= k < parts.len() ==> !(#[trigger] parts[k]).contains(AMPERSAND),
    ensures
        segments(join(parts)) == parts,
    decreases parts.len(),
{
    let body = join(parts);
    let head = parts[0];
    assert forall|j: int| 0 <= j < head.len() implies head[j] != AMPERSAND by {
        assert(head.contains(head[j]));
    }
    if parts.len() == 1 {
        lemma_position(body, AMPERSAND, body.len() as int);
        assert(segments(body) =~= parts);
    } else {
        let rest = parts.drop_first();
        assert forall|k: int| 0 <= k < rest.len() implies !(#[trigger] rest[k]).contains(
            AMPERSAND,
        ) by {
            assert(rest[k] == parts[k + 1]);
        }
        law_segments_of_join(rest);
        lemma_position(body, AMPERSAND, head.len() as int);
        assert(body.subrange(0, head.len() as int) =~= head);
        assert(body.subrange(head.len() as int + 1, body.len() as int) =~= join(rest));
        assert(segments(body) =~= parts);
    }
}

/// A body written as pairs `key=value` with `&` between them gives, for
/// every key, the value of the last pair with that key, whole. The keys
/// hold neither `=` nor `&`, the values no `&`.
pub proof fn law_last_pair_wins(pairs: Seq<(Seq<u8>, Seq<u8>)>, key: Seq<u8>)
    requires
        pairs.len() > 0,
        forall|k: int|
            0 <= k < pairs.len() ==> !(#[trigger] pairs[k]).0.contains(EQUALS)
                && !pairs[k].0.contains(AMPERSAND) && !pairs[k].1.contains(AMPERSAND),
    ensures
        form_value(join(pairs.map_values(|pair: (Seq<u8>, Seq<u8>)| pair_segment(pair))), key)
            == last_pair_value(pairs, key),
{
    let parts = pairs.map_values(|pair: (Seq<u8>, Seq<u8>)| pair_segment(pair));
    assert forall|k: int| 0 <= k < parts.len() implies !(#[trigger] parts[k]).contains(
        AMPERSAND,
    ) by {
        let pair = pairs[k];
        let segment = parts[k];
        if segment.contains(AMPERSAND) {
            let j = choose|j: int| 0 <= j < segment.len() && segment[j] == AMPERSAND;
            if j < pair.0.len() {
                assert(pair.0.contains(pair.0[j]));
            } else {
                assert(pair.1.contains(pair.1[j - pair.0.len() - 1]));
            }
        }
    }
    law_segments_of_join(parts);
    lemma_last_value_of_pairs(pairs, key);
}

proof fn lemma_last_value_of_pairs(pairs: Seq<(Seq<u8>, Seq<u8>)>, key: Seq<u8>)
    requires
        forall|k: int| 0 <= k < pairs.len() ==> !(#[trigger] pairs[k]).0.contains(EQUALS),
    ensures
        last_value(pairs.map_values(|pair: (Seq<u8>, Seq<u8>)| pair_segment(pair)), key)
            == last_pair_value(pairs, key),
    decreases pairs.len(),
{
    let parts = pairs.map_values(|pair: (Seq<u8>, Seq<u8>)| pair_segment(pair));
    if pairs.len() > 0 {
        assert(parts.last() == pair_segment(pairs.last()));
        law_value_keeps_later_equals(pairs.last(), key);
        assert(parts.drop_last() =~= pairs.drop_last().map_values(
            |pair: (Seq<u8>, Seq<u8>)| pair_segment(pair),
        ));
        lemma_last_value_of_pairs(pairs.drop_last(), key);
    }
}

/// Every segment of a body that is valid UTF-8 is valid UTF-8.
pub proof fn lemma_segments_utf8(body: Seq<u8>)
    requires
        valid_utf8(body),
    ensures
        forall|k: int| 0 <= k < segments(body).len() ==> valid_utf8(#[trigger] segments(body)[k]),
    decreases body.len(),
{
    lemma_position_is_first(body, AMPERSAND);
    let i = position(body, AMPERSAND);
    if i < body.len() {
        let tail = body.subrange(i + 1, body.len() as int);
        lemma_cut_at_ascii(body, i);
        lemma_segments_utf8(tail);
        assert forall|k: int| 0 <= k < segments(body).len() implies valid_utf8(
            #[trigger] segments(body)[k],
        ) by {
            if k > 0 {
                assert(segments(body)[k] == segments(tail)[k - 1]);
            }
        }
    }
}

proof fn lemma_utf8_from_segments(body: Seq<u8>)
    requires
        forall|k: int| 0 <= k < segments(body).len() ==> valid_utf8(#[trigger] segments(body)[k]),
    ensures
        valid_utf8(body),
    decreases body.len(),
{
    lemma_position_is_first(body, AMPERSAND);
    let i = position(body, AMPERSAND);
    if i < body.len() {
        let head = body.subrange(0, i);
        let tail = body.subrange(i + 1, body.len() as int);
        assert(segments(body)[0] == head);
        assert forall|k: int| 0 <= k < segments(tail).len() implies valid_utf8(
            #[trigger] segments(tail)[k],
        ) by {
            assert(segments(tail)[k] == segments(body)[k + 1]);
        }
        lemma_utf8_from_segments(tail);
        let mark = seq![AMPERSAND];
        assert(valid_utf8(mark)) by {
            reveal_with_fuel(valid_utf8, 2);
            assert(pop_first_scalar(mark) =~= Seq::<u8>::empty());
        }
        valid_utf8_concat(head, mark);
        valid_utf8_concat(head + mark, tail);
        assert(body =~= head + mark + tail);
    } else {
        assert(segments(body)[0] == body);
    }
}

/// A body is valid UTF-8 exactly when each of its segments is: it makes no
/// difference whether a body is examined whole or segment by segment.
pub proof fn law_utf8_segment_by_segment(body: Seq<u8>)
    ensures
        valid_utf8(body) <==> forall|k: int|
            0 <= k < segments(body).len() ==> valid_utf8(#[trigger] segments(body)[k]),
{
    if valid_utf8(body) {
        lemma_segments_utf8(body);
    }
    if forall|k: int| 0 <= k < segments(body).len() ==> valid_utf8(#[trigger] segments(body)[k]) {
        lemma_utf8_from_segments(body);
    }
}

proof fn lemma_last_value_utf8(segments: Seq<Seq<u8>>, key: Seq<u8>)
    requires
        forall|k: int| 0 <= k < segments.len() ==> valid_utf8(#[trigger] segments[k]),
    ensures
        last_value(segments, key) matches Some(v) ==> valid_utf8(v),
    decreases segments.len(),
{
    if segments.len() > 0 {
        let segment = segments.last();
        if segment_value(segment, key) is Some {
            lemma_position_is_first(segment, EQUALS);
            lemma_cut_at_ascii(segment, position(segment, EQUALS));
        } else {
            lemma_last_value_utf8(segments.drop_last(), key);
        }
    }
}

/// In a body that is valid UTF-8, the value of every key is valid UTF-8.
pub proof fn lemma_form_value_utf8(body: Seq<u8>, key: Seq<u8>)
    requires
        valid_utf8(body),
    ensures
        form_value(body, key) matches Some(v) ==> valid_utf8(v),
{
    lemma_segments_utf8(body);
    lemma_last_value_utf8(segments(body), key);
}

/// Whether the form syntax writes the byte `b` as it is: letters and digits
/// of ASCII, and `*`, `-`, `.`, `_`.
pub open spec fn form_unchanged(b: u8) -> bool {
    let c = b as char;
    ||| c == '*'
    ||| c == '-'
    ||| c == '.'
    ||| c == '_'
    ||| '0' <= c <= '9'
    ||| 'A' <= c <= 'Z'
    ||| 'a' <= c <= 'z'
}

/// The hexadecimal digit for `d`, in upper case.
pub open spec fn hex_upper(d: int) -> char {
    if d < 10 {
        digit_char(d)
    } else if d == 10 {
        'A'
    } else if d == 11 {
        'B'
    } else if d == 12 {
        'C'
    } else if d == 13 {
        'D'
    } else if d == 14 {
        'E'
    } else {
        'F'
    }
}

/// One byte in the form syntax: itself, `+` for a space, or `%` and its two
/// hexadecimal digits.
pub open spec fn form_byte(b: u8) -> Seq<char> {
    if form_unchanged(b) {
        seq![b as char]
    } else if b == 0x20 {
        seq!['+']
    } else {
        seq!['%', hex_upper(b as int / 16), hex_upper(b as int % 16)]
    }
}

/// A byte string in the form syntax.
pub open spec fn form_bytes(s: Seq<u8>) -> Seq<char>
    decreases s.len(),
{
    if s.len() == 0 {
        Seq::empty()
    } else {
        form_byte(s[0]) + form_bytes(s.drop_first())
    }
}

/// Whether `c` can stand in a name or a value written in the form syntax:
/// what is written unchanged, `+`, `%`, and the hexadecimal digits, all of
/// which are written unchanged too.
pub open spec fn form_char(c: char) -> bool {
    ||| c == '+'
    ||| c == '%'
    ||| c == '*'
    ||| c == '-'
    ||| c == '.'
    ||| c == '_'
    ||| '0' <= c <= '9'
    ||| 'A' <= c <= 'Z'
    ||| 'a' <= c <= 'z'
}

/// Whatever the bytes, their form syntax is made of `form_char` characters
/// alone: it holds no `&` and no `=`, so a pair stays one pair.
pub proof fn law_form_bytes_are_plain(s: Seq<u8>)
    ensures
        forall|i: int| 0 <= i < form_bytes(s).len() ==> form_char(#[trigger] form_bytes(s)[i]),
    decreases s.len(),
{
    if s.len() > 0 {
        law_form_bytes_are_plain(s.drop_first());
        let first = form_byte(s[0]);
        assert forall|i: int| 0 <= i < first.len() implies form_char(first[i]) by {}
        assert forall|i: int| 0 <= i < form_bytes(s).len() implies form_char(
            #[trigger] form_bytes(s)[i],
        ) by {
            if i >= first.len() {
                assert(form_bytes(s)[i] == form_bytes(s.drop_first())[i - first.len()]);
            }
        }
    }
}

/// A body that holds the one pair `name=value`, both taken as UTF-8 and
/// written in the form syntax.
pub open spec fn form_pair_text(name: Seq<char>, value: Seq<char>) -> Seq<char> {
    form_bytes(encode_utf8(name)) + seq!['='] + form_bytes(encode_utf8(value))
}

/// Writes a body that holds one pair.
///
/// Calls `url::form_urlencoded::Serializer`: a new serializer on an empty
/// `String`, `append_pair`, `finish`. Believed of it, as its source shows and
/// the syntax it names prescribes: name and value are taken as their UTF-8
/// bytes, each byte is written as `form_byte` says, and `=` stands between
/// the two.
#[verifier::external_body]
pub(crate) fn form_pair(name: &str, value: &str) -> (r: String)
    ensures
        r@ == form_pair_text(name@, value@),
{
    url::form_urlencoded::Serializer::new(String::new()).append_pair(name, value).finish()
}

} // verus!
