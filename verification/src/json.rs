//! JSON text: string literals, written by the encoder of `rustc_serialize`,
//! and the framing of objects around them.

use vstd::prelude::*;
use vstd::string::*;
use crate::text::digit_char;

verus! {

/// The hexadecimal digit for `d`, in lower case.
pub open spec fn hex_lower(d: int) -> char {
    if d < 10 {
        digit_char(d)
    } else if d == 10 {
        'a'
    } else if d == 11 {
        'b'
    } else if d == 12 {
        'c'
    } else if d == 13 {
        'd'
    } else if d == 14 {
        'e'
    } else {
        'f'
    }
}

/// One character inside a JSON string literal: `"` and `\` behind a
/// backslash; backspace, tab, line feed, form feed and carriage return as
/// `\b`, `\t`, `\n`, `\f`, `\r`; any other character below the space, and
/// the delete character, as `\u00` and two hexadecimal digits; every other
/// character as it is.
pub open spec fn json_char(c: char) -> Seq<char> {
    if c == '"' {
        seq!['\\', '"']
    } else if c == '\\' {
        seq!['\\', '\\']
    } else if c == '\u{8}' {
        seq!['\\', 'b']
    } else if c == '\t' {
        seq!['\\', 't']
    } else if c == '\n' {
        seq!['\\', 'n']
    } else if c == '\u{c}' {
        seq!['\\', 'f']
    } else if c == '\r' {
        seq!['\\', 'r']
    } else if c < ' ' || c == '\u{7f}' {
        seq!['\\', 'u', '0', '0', hex_lower(c as int / 16), hex_lower(c as int % 16)]
    } else {
        seq![c]
    }
}

/// The characters of a text as they stand inside a JSON string literal.
pub open spec fn json_chars(s: Seq<char>) -> Seq<char>
    decreases s.len(),
{
    if s.len() == 0 {
        Seq::empty()
    } else {
        json_char(s[0]) + json_chars(s.drop_first())
    }
}

/// The JSON string literal for a text: its characters, escaped where JSON
/// asks for it, between double quotes.
pub open spec fn json_string_text(s: Seq<char>) -> Seq<char> {
    seq!['"'] + json_chars(s) + seq!['"']
}

/// Encodes a string slice as a JSON string literal.
///
/// Calls `rustc_serialize::json::encode` on the slice. Believed of it, as its
/// source shows: the result is the text between double quotes, each
/// character written as `json_char` says; and it is always there, since for
/// a string slice the encoder does nothing but write into a `String`, which
/// never reports an error.
#[verifier::external_body]
fn json_string(s: &str) -> (r: Option<String>)
    ensures
        r is Some,
        r->0@ == json_string_text(s@),
{
    match rustc_serialize::json::encode(&s) {
        Ok(text) => Some(text),
        Err(_) => None,
    }
}

/// The JSON string literal for `s`.
pub fn quote(s: &str) -> (r: String)
    ensures
        r@ == json_string_text(s@),
{
    match json_string(s) {
        Some(text) => text,
        None => String::new(),
    }
}

/// One member of an object: its encoded name, a colon, its encoded value.
pub open spec fn member_text(member: (Seq<char>, Seq<char>)) -> Seq<char> {
    member.0 + seq![':'] + member.1
}

/// The members of an object, with a comma between each two.
pub open spec fn members_text(members: Seq<(Seq<char>, Seq<char>)>) -> Seq<char>
    decreases members.len(),
{
    if members.len() == 0 {
        Seq::empty()
    } else if members.len() == 1 {
        member_text(members[0])
    } else {
        members_text(members.drop_last()) + seq![','] + member_text(members.last())
    }
}

/// A JSON object, written without spaces, from members that are already
/// encoded: `{}` for none.
pub open spec fn object_text(members: Seq<(Seq<char>, Seq<char>)>) -> Seq<char> {
    seq!['{'] + members_text(members) + seq!['}']
}

/// The texts of encoded members.
pub open spec fn members_view(members: Seq<(String, String)>) -> Seq<(Seq<char>, Seq<char>)> {
    members.map_values(|member: (String, String)| (member.0@, member.1@))
}

/// Writes a JSON object from members whose names and values are already
/// encoded.
pub fn object(members: &Vec<(String, String)>) -> (r: String)
    ensures
        r@ == object_text(members_view(members@)),
{
    proof {
        reveal_strlit("{");
        reveal_strlit("}");
    }
    let ghost all = members_view(members@);
    let mut text = String::from_str("{");
    let mut i: usize = 0;
    while i < members.len()
        invariant
            i <= members@.len(),
            all == members_view(members@),
            text@ == seq!['{'] + members_text(all.take(i as int)),
        decreases members@.len() - i,
    {
        let ghost before = text@;
        if i > 0 {
            text.append(",");
        }
        text.append(members[i].0.as_str());
        text.append(":");
        text.append(members[i].1.as_str());
        proof {
            reveal_strlit(",");
            reveal_strlit(":");
            let now = all.take(i + 1);
            assert(now.drop_last() =~= all.take(i as int));
            assert(now.last() == (members@[i as int].0@, members@[i as int].1@));
            let member = member_text(now.last());
            if i == 0 {
                assert(now[0] == now.last());
                assert(text@ =~= before + member);
                assert(members_text(all.take(0)) =~= Seq::<char>::empty());
            } else {
                assert(text@ =~= before + seq![','] + member);
            }
            assert(text@ =~= seq!['{'] + members_text(now));
        }
        i += 1;
    }
    text.append("}");
    proof {
        assert(all.take(i as int) =~= all);
        assert(text@ =~= object_text(all));
    }
    text
}

/// Whether `c` is written behind a backslash inside a string literal.
pub open spec fn json_escaped(c: char) -> bool {
    c == '"' || c == '\\' || c < ' ' || c == '\u{7f}'
}

proof fn lemma_json_char_shape(c: char)
    ensures
        json_char(c).len() >= 1,
        json_char(c)[0] != '"',
        json_escaped(c) <==> json_char(c)[0] == '\\',
        json_escaped(c) ==> json_char(c).len() >= 2,
        json_escaped(c) && json_char(c)[1] == 'u' ==> json_char(c).len() == 6,
        json_escaped(c) && json_char(c)[1] != 'u' ==> json_char(c).len() == 2,
        !json_escaped(c) ==> json_char(c) == seq![c],
{
}

proof fn lemma_hex_lower_differs(a: int, b: int)
    requires
        0 <= a < 16,
        0 <= b < 16,
        hex_lower(a) == hex_lower(b),
    ensures
        a == b,
{
}

/// What one character is written as can be told from what follows it: two
/// texts that start alike start with the same character.
proof fn lemma_json_char_prefix(c: char, d: char, x: Seq<char>, y: Seq<char>)
    requires
        json_char(c) + x == json_char(d) + y,
    ensures
        c == d,
        x == y,
{
    let left = json_char(c) + x;
    let right = json_char(d) + y;
    lemma_json_char_shape(c);
    lemma_json_char_shape(d);
    assert(left[0] == json_char(c)[0]);
    assert(right[0] == json_char(d)[0]);
    if json_escaped(c) {
        assert(left[1] == json_char(c)[1]);
        assert(right[1] == json_char(d)[1]);
        if json_char(c)[1] == 'u' {
            assert(left[4] == json_char(c)[4]);
            assert(right[4] == json_char(d)[4]);
            assert(left[5] == json_char(c)[5]);
            assert(right[5] == json_char(d)[5]);
            lemma_hex_lower_differs(c as int / 16, d as int / 16);
            lemma_hex_lower_differs(c as int % 16, d as int % 16);
        }
    }
    assert(c == d);
    let n = json_char(c).len() as int;
    assert(x =~= left.subrange(n, left.len() as int));
    assert(y =~= right.subrange(n, right.len() as int));
}

/// A string literal ends where its closing quote stands: of two texts that
/// are alike, each a literal's inside with a quote and more behind it, the
/// insides are those of the same text, and what follows is alike.
proof fn lemma_json_chars_end(a: Seq<char>, b: Seq<char>, x: Seq<char>, y: Seq<char>)
    requires
        json_chars(a) + seq!['"'] + x == json_chars(b) + seq!['"'] + y,
    ensures
        a == b,
        x == y,
    decreases a.len(),
{
    let left = json_chars(a) + seq!['"'] + x;
    let right = json_chars(b) + seq!['"'] + y;
    if a.len() == 0 && b.len() == 0 {
        assert(x =~= left.subrange(1, left.len() as int));
        assert(y =~= right.subrange(1, right.len() as int));
        assert(a =~= b);
    } else if a.len() == 0 {
        lemma_json_char_shape(b[0]);
        assert(left[0] == '"');
        assert(right[0] == json_char(b[0])[0]);
    } else if b.len() == 0 {
        lemma_json_char_shape(a[0]);
        assert(right[0] == '"');
        assert(left[0] == json_char(a[0])[0]);
    } else {
        let rest_a = json_chars(a.drop_first()) + seq!['"'] + x;
        let rest_b = json_chars(b.drop_first()) + seq!['"'] + y;
        assert(left =~= json_char(a[0]) + rest_a);
        assert(right =~= json_char(b[0]) + rest_b);
        lemma_json_char_prefix(a[0], b[0], rest_a, rest_b);
        lemma_json_chars_end(a.drop_first(), b.drop_first(), x, y);
        assert(a =~= seq![a[0]] + a.drop_first());
        assert(b =~= seq![b[0]] + b.drop_first());
    }
}

/// A string literal can be read back: two texts that start with a literal
/// and are alike start with the literal of the same text, and go on alike.
pub proof fn law_json_string_reads_back(a: Seq<char>, b: Seq<char>, x: Seq<char>, y: Seq<char>)
    requires
        json_string_text(a) + x == json_string_text(b) + y,
    ensures
        a == b,
        x == y,
{
    let left = json_string_text(a) + x;
    let right = json_string_text(b) + y;
    let inner_a = json_chars(a) + seq!['"'] + x;
    let inner_b = json_chars(b) + seq!['"'] + y;
    assert(inner_a =~= left.subrange(1, left.len() as int));
    assert(inner_b =~= right.subrange(1, right.len() as int));
    lemma_json_chars_end(a, b, x, y);
}

} // verus!
