//! The server's state, and what it does with a request once the method and
//! the path are known.

use vstd::prelude::*;
use vstd::string::*;
use crate::json::{json_string_text, object_text, members_view, quote, object};
use crate::outgoing::SlackEndpoint;
use crate::scores::ScoreStore;
use crate::text::{decimal, append_decimal, str_eq};

verus! {

/// The scores and the endpoint to which changes are reported.
pub struct KarmaServer {
    pub scores: ScoreStore,
    pub endpoint: String,
}

impl KarmaServer {
    /// A server that starts from `scores` and reports to `endpoint`.
    pub fn new(scores: ScoreStore, endpoint: String) -> (r: KarmaServer)
        ensures
            r.scores == scores,
            r.endpoint == endpoint,
    {
        KarmaServer { scores, endpoint }
    }

    /// The endpoint to which changes are reported.
    pub fn get_slack_endpoint(&self) -> (r: SlackEndpoint)
        ensures
            r.url@ == self.endpoint@,
    {
        SlackEndpoint { url: self.endpoint.clone() }
    }
}

/// The method of a request, as far as the server tells methods apart.
#[derive(Clone, Copy, Debug, PartialEq, Eq, Structural)]
pub enum Method {
    Get,
    Post,
    Other,
}

/// What a request asks the server to do.
#[derive(Clone, Copy, Debug, PartialEq, Eq, Structural)]
pub enum Route {
    /// `GET /`: say hello.
    Hello,
    /// `GET /karma`: list the scores.
    Karma,
    /// `POST /normalise`: normalise every score.
    Normalise,
    /// `POST /slack`: take a slash command.
    Slack,
    /// Anything else.
    NotFound,
}

/// What a request with this method and path asks for.
pub open spec fn route_of(method: Method, path: Seq<char>) -> Route {
    match method {
        Method::Get => if path == "/"@ {
            Route::Hello
        } else if path == "/karma"@ {
            Route::Karma
        } else {
            Route::NotFound
        },
        Method::Post => if path == "/normalise"@ {
            Route::Normalise
        } else if path == "/slack"@ {
            Route::Slack
        } else {
            Route::NotFound
        },
        Method::Other => Route::NotFound,
    }
}

/// What a request with this method and path asks for.
pub fn route(method: Method, path: &str) -> (r: Route)
    ensures
        r == route_of(method, path@),
{
    match method {
        Method::Get => if str_eq(path, "/") {
            Route::Hello
        } else if str_eq(path, "/karma") {
            Route::Karma
        } else {
            Route::NotFound
        },
        Method::Post => if str_eq(path, "/normalise") {
            Route::Normalise
        } else if str_eq(path, "/slack") {
            Route::Slack
        } else {
            Route::NotFound
        },
        Method::Other => Route::NotFound,
    }
}

impl Route {
    /// The status of the reply: 404 for a request that asks for nothing the
    /// server has, else 200.
    pub fn status(self) -> (r: u16)
        ensures
            r == if self == Route::NotFound {
                404u16
            } else {
                200u16
            },
    {
        match self {
            Route::NotFound => 404,
            _ => 200,
        }
    }
}

/// The members of the object that lists scores: each user's name as a JSON
/// string, with the score in decimal.
pub open spec fn score_members(entries: Seq<(String, i32)>) -> Seq<(Seq<char>, Seq<char>)> {
    entries.map_values(|entry: (String, i32)| (json_string_text(entry.0@), decimal(entry.1 as int)))
}

/// The listed scores as one JSON object, a member for each user.
pub fn scores_json(entries: &Vec<(String, i32)>) -> (r: String)
    ensures
        r@ == object_text(score_members(entries@)),
{
    let mut members: Vec<(String, String)> = Vec::new();
    let mut i: usize = 0;
    while i < entries.len()
        invariant
            i <= entries@.len(),
            members@.len() == i,
            forall|j: int|
                0 <= j < i ==> (#[trigger] members@[j]).0@ == json_string_text(entries@[j].0@)
                    && members@[j].1@ == decimal(entries@[j].1 as int),
        decreases entries@.len() - i,
    {
        let mut score = String::new();
        append_decimal(&mut score, entries[i].1);
        assert(score@ =~= decimal(entries@[i as int].1 as int));
        members.push((quote(entries[i].0.as_str()), score));
        i += 1;
    }
    assert(members_view(members@) =~= score_members(entries@));
    object(&members)
}

} // verus!
