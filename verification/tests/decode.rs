use karmabot::form::{lookup, segment_lookup};
use karmabot::incoming::{DecodeError, Field, SlackPayload};
use karmabot::scan::{bytes_eq, find_byte};

const FULL: &[u8] = b"token=abc123&team_id=T0001&channel_id=C2147483705&channel_name=general&user_id=U2147483697&user_name=steve&command=%2F%2B%2B&text=alice+is+great";

fn body_without(key: &str) -> Vec<u8> {
    let all = [
        ("token", "tok"),
        ("team_id", "T1"),
        ("channel_id", "C1"),
        ("channel_name", "general"),
        ("user_id", "U1"),
        ("user_name", "steve"),
        ("command", "%2F++"),
        ("text", "alice"),
    ];
    let mut parts: Vec<String> = Vec::new();
    for (k, v) in all.iter() {
        if *k != key {
            parts.push(format!("{}={}", k, v));
        }
    }
    parts.join("&").into_bytes()
}

#[test]
fn decodes_every_field_of_a_complete_body() {
    let payload = SlackPayload::from_body(FULL).unwrap();
    assert_eq!(payload.token, "abc123");
    assert_eq!(payload.team_id, "T0001");
    assert_eq!(payload.channel_id, "C2147483705");
    assert_eq!(payload.channel_name, "general");
    assert_eq!(payload.user_id, "U2147483697");
    assert_eq!(payload.user_name, "steve");
    assert_eq!(payload.command, "%2F%2B%2B");
    assert_eq!(payload.text, "alice+is+great");
}

#[test]
fn values_stay_percent_encoded() {
    let body = body_without("text");
    let mut body = body;
    body.extend_from_slice(b"&text=a%20b%3Dc");
    let payload = SlackPayload::from_body(&body).unwrap();
    assert_eq!(payload.text, "a%20b%3Dc");
}

#[test]
fn value_is_split_at_the_first_equals_only() {
    let mut body = body_without("text");
    body.extend_from_slice(b"&text=a=b==c");
    let payload = SlackPayload::from_body(&body).unwrap();
    assert_eq!(payload.text, "a=b==c");
}

#[test]
fn empty_value_is_a_value() {
    let mut body = body_without("text");
    body.extend_from_slice(b"&text=");
    let payload = SlackPayload::from_body(&body).unwrap();
    assert_eq!(payload.text, "");
}

#[test]
fn last_occurrence_of_a_key_counts() {
    let mut body = b"text=first&".to_vec();
    body.extend_from_slice(&body_without("text"));
    body.extend_from_slice(b"&text=second&text=third");
    let payload = SlackPayload::from_body(&body).unwrap();
    assert_eq!(payload.text, "third");
}

#[test]
fn segments_without_equals_are_passed_over() {
    let mut body = b"junk&&text&".to_vec();
    body.extend_from_slice(&body_without("text"));
    body.extend_from_slice(b"&text=bob&more&");
    let payload = SlackPayload::from_body(&body).unwrap();
    assert_eq!(payload.text, "bob");
}

#[test]
fn key_must_match_whole() {
    let mut body = body_without("text");
    body.extend_from_slice(b"&xtext=a&textx=b&tex=c");
    assert_eq!(SlackPayload::from_body(&body), Err(DecodeError::Missing(Field::Text)));
}

#[test]
fn field_order_in_the_body_does_not_matter() {
    let body = b"text=bob&command=%2F--&user_name=u&user_id=i&channel_name=c&channel_id=d&team_id=t&token=k";
    let payload = SlackPayload::from_body(body).unwrap();
    assert_eq!(payload.token, "k");
    assert_eq!(payload.command, "%2F--");
    assert_eq!(payload.text, "bob");
}

#[test]
fn each_missing_key_is_named() {
    let cases = [
        ("token", Field::Token),
        ("team_id", Field::TeamId),
        ("channel_id", Field::ChannelId),
        ("channel_name", Field::ChannelName),
        ("user_id", Field::UserId),
        ("user_name", Field::UserName),
        ("command", Field::Command),
        ("text", Field::Text),
    ];
    for (key, field) in cases.iter() {
        let body = body_without(key);
        assert_eq!(SlackPayload::from_body(&body), Err(DecodeError::Missing(*field)));
    }
}

#[test]
fn first_missing_key_is_the_one_reported() {
    assert_eq!(SlackPayload::from_body(b""), Err(DecodeError::Missing(Field::Token)));
    assert_eq!(
        SlackPayload::from_body(b"token=t&channel_id=c"),
        Err(DecodeError::Missing(Field::TeamId))
    );
    assert_eq!(
        SlackPayload::from_body(b"token=t&team_id=x&channel_id=c&channel_name=n&user_id=u&user_name=s"),
        Err(DecodeError::Missing(Field::Command))
    );
}

#[test]
fn body_that_is_not_utf8_is_refused() {
    let mut body = body_without("text");
    body.extend_from_slice(b"&text=\xff\xfe");
    assert_eq!(SlackPayload::from_body(&body), Err(DecodeError::BadEncoding));
}

#[test]
fn bad_bytes_outside_any_pair_are_refused_too() {
    let mut body = b"\xc3&".to_vec();
    body.extend_from_slice(&body_without(""));
    assert_eq!(SlackPayload::from_body(&body), Err(DecodeError::BadEncoding));
}

#[test]
fn bad_encoding_comes_before_a_missing_key() {
    assert_eq!(SlackPayload::from_body(b"\x80"), Err(DecodeError::BadEncoding));
}

#[test]
fn text_beyond_ascii_is_kept() {
    let mut body = body_without("text");
    body.extend_from_slice("&text=zoë ☃".as_bytes());
    let payload = SlackPayload::from_body(&body).unwrap();
    assert_eq!(payload.text, "zoë ☃");
}

#[test]
fn error_messages() {
    assert_eq!(DecodeError::Missing(Field::Token).message(), "No `token` in request");
    assert_eq!(DecodeError::Missing(Field::TeamId).message(), "No `team_id` in request");
    assert_eq!(DecodeError::Missing(Field::ChannelId).message(), "No `channel_id` in request");
    assert_eq!(DecodeError::Missing(Field::ChannelName).message(), "No `channel_name` in request");
    assert_eq!(DecodeError::Missing(Field::UserId).message(), "No `user_id` in request");
    assert_eq!(DecodeError::Missing(Field::UserName).message(), "No `user_name` in request");
    assert_eq!(DecodeError::Missing(Field::Command).message(), "No `command` in request");
    assert_eq!(DecodeError::Missing(Field::Text).message(), "No `text` in request");
    assert_eq!(DecodeError::BadEncoding.message(), "Request body is not valid UTF-8");
}

#[test]
fn field_names() {
    assert_eq!(Field::Token.name(), "token");
    assert_eq!(Field::ChannelName.name(), "channel_name");
    assert_eq!(Field::Text.name(), "text");
}

#[test]
fn lookup_finds_raw_values() {
    assert_eq!(lookup(b"a=1&b=2", b"a"), Some(&b"1"[..]));
    assert_eq!(lookup(b"a=1&b=2", b"b"), Some(&b"2"[..]));
    assert_eq!(lookup(b"a=1&b=2", b"c"), None);
    assert_eq!(lookup(b"a=1&a=2&", b"a"), Some(&b"2"[..]));
    assert_eq!(lookup(b"=x", b""), Some(&b"x"[..]));
    assert_eq!(lookup(b"", b""), None);
    assert_eq!(lookup(b"a", b"a"), None);
    assert_eq!(lookup(b"a=b=c&d", b"a"), Some(&b"b=c"[..]));
}

#[test]
fn segment_lookup_splits_once() {
    assert_eq!(segment_lookup(b"k=v=w", b"k"), Some(&b"v=w"[..]));
    assert_eq!(segment_lookup(b"k=v=w", b"k=v"), None);
    assert_eq!(segment_lookup(b"k=", b"k"), Some(&b""[..]));
    assert_eq!(segment_lookup(b"k", b"k"), None);
}

#[test]
fn find_byte_gives_first_index_or_length() {
    assert_eq!(find_byte(b"a&b&c", 0, b'&'), 1);
    assert_eq!(find_byte(b"a&b&c", 2, b'&'), 3);
    assert_eq!(find_byte(b"a&b&c", 4, b'&'), 5);
    assert_eq!(find_byte(b"a&b&c", 5, b'&'), 5);
    assert_eq!(find_byte(b"", 0, b'&'), 0);
    assert_eq!(find_byte(b"&", 0, b'&'), 0);
}

#[test]
fn bytes_eq_compares_contents() {
    assert!(bytes_eq(b"", b""));
    assert!(bytes_eq(b"abc", b"abc"));
    assert!(!bytes_eq(b"abc", b"abd"));
    assert!(!bytes_eq(b"abc", b"ab"));
    assert!(!bytes_eq(b"", b"a"));
}
