//! The payload of a slash command, decoded from a request body.

use vstd::prelude::*;
use vstd::utf8::*;
use vstd::string::*;
use crate::form::{form_value, lookup, lemma_form_value_utf8};
use crate::text::utf8_str;

verus! {

/// The keys that every slash-command body must hold, in the order in which
/// they are looked for.
#[derive(Clone, Copy, Debug, PartialEq, Eq, Structural)]
pub enum Field {
    Token,
    TeamId,
    ChannelId,
    ChannelName,
    UserId,
    UserName,
    Command,
    Text,
}

impl Field {
    /// The key as it is spelled in a body.
    pub open spec fn spec_name(self) -> Seq<char> {
        match self {
            Field::Token => "token"@,
            Field::TeamId => "team_id"@,
            Field::ChannelId => "channel_id"@,
            Field::ChannelName => "channel_name"@,
            Field::UserId => "user_id"@,
            Field::UserName => "user_name"@,
            Field::Command => "command"@,
            Field::Text => "text"@,
        }
    }

    /// The key as it is spelled in a body.
    pub fn name(self) -> (r: &'static str)
        ensures
            r@ == self.spec_name(),
    {
        match self {
            Field::Token => "token",
            Field::TeamId => "team_id",
            Field::ChannelId => "channel_id",
            Field::ChannelName => "channel_name",
            Field::UserId => "user_id",
            Field::UserName => "user_name",
            Field::Command => "command",
            Field::Text => "text",
        }
    }
}

/// Why a body could not be decoded.
#[derive(Clone, Copy, Debug, PartialEq, Eq, Structural)]
pub enum DecodeError {
    /// The body is not valid UTF-8.
    BadEncoding,
    /// The body holds no value for this key.
    Missing(Field),
}

impl DecodeError {
    /// The error in words.
    pub open spec fn spec_message(self) -> Seq<char> {
        match self {
            DecodeError::BadEncoding => "Request body is not valid UTF-8"@,
            DecodeError::Missing(field) => "No `"@ + field.spec_name() + "` in request"@,
        }
    }

    /// The error in words, such as ``No `token` in request``.
    pub fn message(&self) -> (r: String)
        ensures
            r@ == self.spec_message(),
    {
        match self {
            DecodeError::BadEncoding => String::from_str("Request body is not valid UTF-8"),
            DecodeError::Missing(field) => {
                let mut text = String::from_str("No `");
                text.append(field.name());
                text.append("` in request");
                text
            },
        }
    }
}

/// A decoded slash command. Every field is the raw value from the body,
/// still percent-encoded.
#[derive(Clone, Copy, Debug, PartialEq, Eq)]
pub struct SlackPayload<'a> {
    pub token: &'a str,
    pub team_id: &'a str,
    pub channel_id: &'a str,
    pub channel_name: &'a str,
    pub user_id: &'a str,
    pub user_name: &'a str,
    pub command: &'a str,
    pub text: &'a str,
}

/// The text of a payload's fields.
pub ghost struct PayloadText {
    pub token: Seq<char>,
    pub team_id: Seq<char>,
    pub channel_id: Seq<char>,
    pub channel_name: Seq<char>,
    pub user_id: Seq<char>,
    pub user_name: Seq<char>,
    pub command: Seq<char>,
    pub text: Seq<char>,
}

impl PayloadText {
    /// The text of one field.
    pub open spec fn field(self, field: Field) -> Seq<char> {
        match field {
            Field::Token => self.token,
            Field::TeamId => self.team_id,
            Field::ChannelId => self.channel_id,
            Field::ChannelName => self.channel_name,
            Field::UserId => self.user_id,
            Field::UserName => self.user_name,
            Field::Command => self.command,
            Field::Text => self.text,
        }
    }
}

impl<'a> View for SlackPayload<'a> {
    type V = PayloadText;

    open spec fn view(&self) -> PayloadText {
        PayloadText {
            token: self.token@,
            team_id: self.team_id@,
            channel_id: self.channel_id@,
            channel_name: self.channel_name@,
            user_id: self.user_id@,
            user_name: self.user_name@,
            command: self.command@,
            text: self.text@,
        }
    }
}

/// The raw value that `body` holds for a required key.
pub open spec fn form_field(body: Seq<u8>, field: Field) -> Option<Seq<u8>> {
    form_value(body, encode_utf8(field.spec_name()))
}

/// The text that `body` holds for a required key.
pub open spec fn field_text(body: Seq<u8>, field: Field) -> Seq<char> {
    decode_utf8(form_field(body, field)->0)
}

/// The first required key for which `body` holds no value.
pub open spec fn first_missing(body: Seq<u8>) -> Option<Field> {
    if form_field(body, Field::Token) is None {
        Some(Field::Token)
    } else if form_field(body, Field::TeamId) is None {
        Some(Field::TeamId)
    } else if form_field(body, Field::ChannelId) is None {
        Some(Field::ChannelId)
    } else if form_field(body, Field::ChannelName) is None {
        Some(Field::ChannelName)
    } else if form_field(body, Field::UserId) is None {
        Some(Field::UserId)
    } else if form_field(body, Field::UserName) is None {
        Some(Field::UserName)
    } else if form_field(body, Field::Command) is None {
        Some(Field::Command)
    } else if form_field(body, Field::Text) is None {
        Some(Field::Text)
    } else {
        None
    }
}

/// What decoding `body` gives: an error for a body that is not valid UTF-8,
/// else an error that names the first missing key, else the payload.
pub open spec fn decode(body: Seq<u8>) -> Result<PayloadText, DecodeError> {
    if !valid_utf8(body) {
        Err(DecodeError::BadEncoding)
    } else if let Some(field) = first_missing(body) {
        Err(DecodeError::Missing(field))
    } else {
        Ok(
            PayloadText {
                token: field_text(body, Field::Token),
                team_id: field_text(body, Field::TeamId),
                channel_id: field_text(body, Field::ChannelId),
                channel_name: field_text(body, Field::ChannelName),
                user_id: field_text(body, Field::UserId),
                user_name: field_text(body, Field::UserName),
                command: field_text(body, Field::Command),
                text: field_text(body, Field::Text),
            },
        )
    }
}

/// The text of one required key of a body that is valid UTF-8.
fn field_str<'a>(req: &'a [u8], field: Field) -> (r: Result<&'a str, DecodeError>)
    requires
        valid_utf8(req@),
    ensures
        match form_field(req@, field) {
            Some(raw) => r is Ok && r->Ok_0@ == decode_utf8(raw),
            None => r == Err::<&str, DecodeError>(DecodeError::Missing(field)),
        },
{
    let key = field.name();
    match lookup(req, key.as_bytes()) {
        None => Err(DecodeError::Missing(field)),
        Some(raw) => {
            proof {
                lemma_form_value_utf8(req@, key.spec_bytes());
            }
            match utf8_str(raw) {
                Some(text) => {
                    proof {
                        encode_utf8_decode_utf8(text@);
                    }
                    Ok(text)
                },
                None => Err(DecodeError::BadEncoding),
            }
        },
    }
}

impl<'a> SlackPayload<'a> {
    /// Decodes the body of a slash-command request.
    pub fn from_body(req: &'a [u8]) -> (r: Result<SlackPayload<'a>, DecodeError>)
        ensures
            match r {
                Ok(payload) => decode(req@) == Ok::<PayloadText, DecodeError>(payload@),
                Err(error) => decode(req@) == Err::<PayloadText, DecodeError>(error),
            },
    {
        if utf8_str(req).is_none() {
            return Err(DecodeError::BadEncoding);
        }
        let token = field_str(req, Field::Token)?;
        let team_id = field_str(req, Field::TeamId)?;
        let channel_id = field_str(req, Field::ChannelId)?;
        let channel_name = field_str(req, Field::ChannelName)?;
        let user_id = field_str(req, Field::UserId)?;
        let user_name = field_str(req, Field::UserName)?;
        let command = field_str(req, Field::Command)?;
        let text = field_str(req, Field::Text)?;
        Ok(SlackPayload { token, team_id, channel_id, channel_name, user_id, user_name, command, text })
    }
}

/// A body that is valid UTF-8 and holds every required key decodes, and each
/// field is the text of that key's raw value.
pub proof fn law_complete_body_decodes(body: Seq<u8>)
    requires
        valid_utf8(body),
        forall|field: Field| form_field(body, field) is Some,
    ensures
        decode(body) is Ok,
        forall|field: Field|
            decode(body)->Ok_0.field(field) == decode_utf8(#[trigger] form_field(body, field)->0),
{
}

/// A body that is valid UTF-8 and lacks exactly one required key fails to
/// decode, and the error names that key.
pub proof fn law_missing_key_is_named(body: Seq<u8>, missing: Field)
    requires
        valid_utf8(body),
        form_field(body, missing) is None,
        forall|field: Field| field != missing ==> form_field(body, field) is Some,
    ensures
        decode(body) == Err::<PayloadText, DecodeError>(DecodeError::Missing(missing)),
{
}

} // verus!
