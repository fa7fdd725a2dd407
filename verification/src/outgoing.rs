//! The outgoing webhook: the message that reports a score to the chat, the
//! request that carries it, and what counts as delivered.

use vstd::prelude::*;
use vstd::string::*;
use crate::form::{form_pair, form_pair_text};
use crate::json::{
    json_string_text, object_text, members_text, member_text, members_view, quote, object,
    law_json_string_reads_back,
};
use crate::karma::KarmaChange;
use crate::text::{decimal, append_decimal};

verus! {

/// A message for the chat platform.
#[derive(Clone, Copy, Debug, PartialEq, Eq)]
pub struct OutgoingWebhook<'a> {
    pub text: &'a str,
    pub channel: &'a str,
    pub username: &'a str,
    pub icon_emoji: Option<&'a str>,
}

/// The text of a message's fields.
pub ghost struct WebhookText {
    pub text: Seq<char>,
    pub channel: Seq<char>,
    pub username: Seq<char>,
    pub icon_emoji: Option<Seq<char>>,
}

impl<'a> View for OutgoingWebhook<'a> {
    type V = WebhookText;

    open spec fn view(&self) -> WebhookText {
        WebhookText {
            text: self.text@,
            channel: self.channel@,
            username: self.username@,
            icon_emoji: match self.icon_emoji {
                Some(icon) => Some(icon@),
                None => None,
            },
        }
    }
}

/// The JSON value of a text that may be absent: `null` for none.
pub open spec fn json_optional_text(s: Option<Seq<char>>) -> Seq<char> {
    match s {
        Some(text) => json_string_text(text),
        None => "null"@,
    }
}

/// A message as a JSON object: its four fields in the order `text`,
/// `channel`, `username`, `icon_emoji`.
pub open spec fn webhook_json(webhook: WebhookText) -> Seq<char> {
    object_text(
        seq![
            (json_string_text("text"@), json_string_text(webhook.text)),
            (json_string_text("channel"@), json_string_text(webhook.channel)),
            (json_string_text("username"@), json_string_text(webhook.username)),
            (json_string_text("icon_emoji"@), json_optional_text(webhook.icon_emoji)),
        ],
    )
}

/// The body of the request that carries a message: the JSON object as the
/// value of the one form field `payload`.
pub open spec fn webhook_body(webhook: WebhookText) -> Seq<char> {
    form_pair_text("payload"@, webhook_json(webhook))
}

impl<'a> OutgoingWebhook<'a> {
    /// The message as a JSON object.
    pub fn to_json(&self) -> (r: String)
        ensures
            r@ == webhook_json(self@),
    {
        let icon = match self.icon_emoji {
            Some(icon) => quote(icon),
            None => String::from_str("null"),
        };
        let mut members: Vec<(String, String)> = Vec::new();
        members.push((quote("text"), quote(self.text)));
        members.push((quote("channel"), quote(self.channel)));
        members.push((quote("username"), quote(self.username)));
        members.push((quote("icon_emoji"), icon));
        let text = object(&members);
        proof {
            assert(members_view(members@) =~= seq![
                (json_string_text("text"@), json_string_text(self@.text)),
                (json_string_text("channel"@), json_string_text(self@.channel)),
                (json_string_text("username"@), json_string_text(self@.username)),
                (json_string_text("icon_emoji"@), json_optional_text(self@.icon_emoji)),
            ]);
        }
        text
    }

    /// The body of the request that carries the message.
    pub fn form_body(&self) -> (r: String)
        ensures
            r@ == webhook_body(self@),
    {
        let json = self.to_json();
        form_pair("payload", json.as_str())
    }
}

/// How an object starts whose first member has this name.
spec fn opening(name: Seq<char>) -> Seq<char> {
    seq!['{'] + json_string_text(name) + seq![':']
}

/// What stands between one member's value and the value of the next, which
/// has this name.
spec fn between(name: Seq<char>) -> Seq<char> {
    seq![','] + json_string_text(name) + seq![':']
}

/// The object of a message from the value of `icon_emoji` on.
spec fn from_icon(webhook: WebhookText) -> Seq<char> {
    json_optional_text(webhook.icon_emoji) + seq!['}']
}

/// The object of a message from the value of `username` on.
spec fn from_username(webhook: WebhookText) -> Seq<char> {
    json_string_text(webhook.username) + (between("icon_emoji"@) + from_icon(webhook))
}

/// The object of a message from the value of `channel` on.
spec fn from_channel(webhook: WebhookText) -> Seq<char> {
    json_string_text(webhook.channel) + (between("username"@) + from_username(webhook))
}

/// The object of a message from the value of `text` on.
spec fn from_text(webhook: WebhookText) -> Seq<char> {
    json_string_text(webhook.text) + (between("channel"@) + from_channel(webhook))
}

proof fn lemma_member_moves_right(
    before: Seq<char>,
    name: Seq<char>,
    value: Seq<char>,
    after: Seq<char>,
)
    ensures
        (before + seq![','] + member_text((name, value))) + after == before + ((seq![','] + name
            + seq![':']) + (value + after)),
{
    assert((before + seq![','] + member_text((name, value))) + after =~= before + ((seq![',']
        + name + seq![':']) + (value + after)));
}

proof fn lemma_first_member_moves_right(name: Seq<char>, value: Seq<char>, after: Seq<char>)
    ensures
        seq!['{'] + (member_text((name, value)) + after) == (seq!['{'] + name + seq![':']) + (value
            + after),
{
    assert(seq!['{'] + (member_text((name, value)) + after) =~= (seq!['{'] + name + seq![':'])
        + (value + after));
}

proof fn lemma_webhook_json_in_a_row(webhook: WebhookText)
    ensures
        webhook_json(webhook) == opening("text"@) + from_text(webhook),
{
    let m0 = (json_string_text("text"@), json_string_text(webhook.text));
    let m1 = (json_string_text("channel"@), json_string_text(webhook.channel));
    let m2 = (json_string_text("username"@), json_string_text(webhook.username));
    let m3 = (json_string_text("icon_emoji"@), json_optional_text(webhook.icon_emoji));
    let members = seq![m0, m1, m2, m3];
    let three = members.drop_last();
    let two = three.drop_last();
    let one = two.drop_last();
    let s1 = members_text(one);
    let s2 = members_text(two);
    let s3 = members_text(three);
    let s4 = members_text(members);
    assert(s1 == member_text(m0));
    assert(s2 == s1 + seq![','] + member_text(m1));
    assert(s3 == s2 + seq![','] + member_text(m2));
    assert(s4 == s3 + seq![','] + member_text(m3));
    let close = seq!['}'];
    lemma_member_moves_right(s3, m3.0, m3.1, close);
    let t3 = between("icon_emoji"@) + from_icon(webhook);
    assert(s4 + close == s3 + t3);
    lemma_member_moves_right(s2, m2.0, m2.1, t3);
    let t2 = between("username"@) + from_username(webhook);
    assert(s3 + t3 == s2 + t2);
    lemma_member_moves_right(s1, m1.0, m1.1, t2);
    let t1 = between("channel"@) + from_channel(webhook);
    assert(s2 + t2 == s1 + t1);
    lemma_first_member_moves_right(m0.0, m0.1, t1);
    assert(webhook_json(webhook) =~= seq!['{'] + (s4 + close));
}

proof fn lemma_same_start(start: Seq<char>, x: Seq<char>, y: Seq<char>)
    requires
        start + x == start + y,
    ensures
        x == y,
{
    assert(x =~= (start + x).subrange(start.len() as int, (start + x).len() as int));
    assert(y =~= (start + y).subrange(start.len() as int, (start + y).len() as int));
}

/// The JSON object of a message can be read back: two messages with the same
/// JSON object are the same message.
pub proof fn law_webhook_json_reads_back(first: WebhookText, second: WebhookText)
    requires
        webhook_json(first) == webhook_json(second),
    ensures
        first == second,
{
    lemma_webhook_json_in_a_row(first);
    lemma_webhook_json_in_a_row(second);
    lemma_same_start(opening("text"@), from_text(first), from_text(second));
    law_json_string_reads_back(
        first.text,
        second.text,
        between("channel"@) + from_channel(first),
        between("channel"@) + from_channel(second),
    );
    lemma_same_start(between("channel"@), from_channel(first), from_channel(second));
    law_json_string_reads_back(
        first.channel,
        second.channel,
        between("username"@) + from_username(first),
        between("username"@) + from_username(second),
    );
    lemma_same_start(between("username"@), from_username(first), from_username(second));
    law_json_string_reads_back(
        first.username,
        second.username,
        between("icon_emoji"@) + from_icon(first),
        between("icon_emoji"@) + from_icon(second),
    );
    lemma_same_start(between("icon_emoji"@), from_icon(first), from_icon(second));
    reveal_strlit("null");
    match (first.icon_emoji, second.icon_emoji) {
        (Some(a), Some(b)) => {
            law_json_string_reads_back(a, b, seq!['}'], seq!['}']);
        },
        (Some(a), None) => {
            assert(from_icon(first)[0] == '"');
            assert(from_icon(second)[0] == 'n');
        },
        (None, Some(b)) => {
            assert(from_icon(first)[0] == 'n');
            assert(from_icon(second)[0] == '"');
        },
        (None, None) => {},
    }
}

/// The content type of the request that carries a message.
pub const FORM_CONTENT_TYPE: &'static str = "application/x-www-form-urlencoded";

/// How long a delivery may take before it is given up, in seconds.
pub const DELIVERY_TIMEOUT_SECONDS: u64 = 10;

/// How many bytes of a reply are read, for the log only.
pub const REPLY_LOG_LIMIT: usize = 1024;

/// Whether `url` parses a text as an absolute URL.
pub uninterp spec fn url_parses(s: Seq<char>) -> bool;

/// Whether a text is an absolute URL.
///
/// Calls `url::Url::parse` and keeps only whether it succeeded. Believed of
/// it: the answer depends on the text alone.
#[verifier::external_body]
fn parses_as_url(s: &str) -> (r: bool)
    ensures
        r == url_parses(s@),
{
    match url::Url::parse(s) {
        Ok(_) => true,
        Err(_) => false,
    }
}

/// Why a message did not reach the chat platform.
#[derive(Clone, Copy, Debug, PartialEq, Eq, Structural)]
pub enum DeliveryError {
    /// The endpoint is not an absolute URL.
    InvalidUrl,
    /// The request could not be sent, or no reply came in time.
    Network,
    /// The reply had this status, which is not one of success.
    Status(u16),
}

/// What came back from sending a request.
#[derive(Clone, Copy, Debug, PartialEq, Eq, Structural)]
pub enum Reply {
    /// A reply with this status.
    Status(u16),
    /// No reply: the connection failed or timed out.
    Nothing,
}

/// Whether a reply means that the message was delivered: only a status from
/// 200 to 299 does.
pub fn delivery_result(reply: Reply) -> (r: Result<(), DeliveryError>)
    ensures
        r == match reply {
            Reply::Status(code) => if 200 <= code < 300 {
                Ok::<(), DeliveryError>(())
            } else {
                Err::<(), DeliveryError>(DeliveryError::Status(code))
            },
            Reply::Nothing => Err::<(), DeliveryError>(DeliveryError::Network),
        },
{
    match reply {
        Reply::Status(code) => if 200 <= code && code < 300 {
            Ok(())
        } else {
            Err(DeliveryError::Status(code))
        },
        Reply::Nothing => Err(DeliveryError::Network),
    }
}

/// A POST request, ready to be sent.
#[derive(Debug, PartialEq, Eq)]
pub struct OutgoingRequest {
    /// Where to send it.
    pub url: String,
    /// The value of its `Content-Type` header.
    pub content_type: &'static str,
    /// Its body.
    pub body: String,
    /// After how many seconds without a reply it is given up.
    pub timeout_seconds: u64,
}

impl OutgoingRequest {
    /// Whether this is the request that carries `body` to `url`.
    pub open spec fn carries(self, url: Seq<char>, body: Seq<char>) -> bool {
        &&& self.url@ == url
        &&& self.content_type@ == FORM_CONTENT_TYPE@
        &&& self.body@ == body
        &&& self.timeout_seconds == DELIVERY_TIMEOUT_SECONDS
    }
}

/// The request that carries `body` to `url`, given whether `url` is an
/// absolute URL: without one there is nothing to send.
pub fn request_to(url: &str, url_is_absolute: bool, body: String) -> (r: Result<
    OutgoingRequest,
    DeliveryError,
>)
    ensures
        match r {
            Ok(request) => url_is_absolute && request.carries(url@, body@),
            Err(error) => !url_is_absolute && error == DeliveryError::InvalidUrl,
        },
{
    if url_is_absolute {
        Ok(
            OutgoingRequest {
                url: url.to_owned(),
                content_type: FORM_CONTENT_TYPE,
                body,
                timeout_seconds: DELIVERY_TIMEOUT_SECONDS,
            },
        )
    } else {
        Err(DeliveryError::InvalidUrl)
    }
}

/// Where messages for the chat platform go.
#[derive(Debug, PartialEq, Eq)]
pub struct SlackEndpoint {
    pub url: String,
}

impl SlackEndpoint {
    /// The address of the endpoint.
    pub fn endpoint_url(&self) -> (r: &String)
        ensures
            r@ == self.url@,
    {
        &self.url
    }

    /// The request that delivers `payload` to this endpoint, or
    /// `InvalidUrl` where the endpoint's address is not an absolute URL.
    pub fn request(&self, payload: &OutgoingWebhook) -> (r: Result<OutgoingRequest, DeliveryError>)
        ensures
            match r {
                Ok(request) => url_parses(self.url@) && request.carries(
                    self.url@,
                    webhook_body(payload@),
                ),
                Err(error) => !url_parses(self.url@) && error == DeliveryError::InvalidUrl,
            },
    {
        let url = self.endpoint_url().as_str();
        request_to(url, parses_as_url(url), payload.form_body())
    }
}

/// The sentence that reports a score, such as `alice now at 3`.
pub open spec fn notice_text(target: Seq<char>, score: int) -> Seq<char> {
    target + " now at "@ + decimal(score)
}

/// The chat's name for a channel: `#` before the channel's own name.
pub open spec fn notice_channel(channel: Seq<char>) -> Seq<char> {
    "#"@ + channel
}

/// The report of a changed score, ready to become a message.
#[derive(Debug, PartialEq, Eq)]
pub struct Notice {
    /// The sentence that reports the score.
    pub text: String,
    /// The channel that it goes to.
    pub channel: String,
}

/// The report of a changed score, for the channel in which the command was
/// given.
pub fn notice(change: &KarmaChange) -> (r: Notice)
    ensures
        r.text@ == notice_text(change.target@, change.new_score as int),
        r.channel@ == notice_channel(change.channel@),
{
    let mut text = String::from_str(change.target);
    text.append(" now at ");
    append_decimal(&mut text, change.new_score);
    let mut channel = String::from_str("#");
    channel.append(change.channel);
    Notice { text, channel }
}

impl Notice {
    /// The message that carries this report: sent as `karmabot`, with a
    /// ghost for its icon.
    pub fn webhook(&self) -> (r: OutgoingWebhook<'_>)
        ensures
            r@ == (WebhookText {
                text: self.text@,
                channel: self.channel@,
                username: "karmabot"@,
                icon_emoji: Some(":ghost:"@),
            }),
    {
        OutgoingWebhook {
            text: self.text.as_str(),
            channel: self.channel.as_str(),
            username: "karmabot",
            icon_emoji: Some(":ghost:"),
        }
    }
}

} // verus!
