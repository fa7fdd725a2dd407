//! The karma engine: what a decoded slash command does to the scores.

use vstd::prelude::*;
use vstd::seq_lib::{to_multiset_contains, to_multiset_len, to_multiset_remove};
use crate::incoming::{SlackPayload, PayloadText, DecodeError, decode};
use crate::scan::position;
use crate::scores::{ScoreStore, score_of, lists};
use crate::text::{str_eq, prefix_before};

verus! {

/// What a slash command asks for.
#[derive(Clone, Copy, Debug, PartialEq, Eq, Structural)]
pub enum Command {
    /// `/++`: one point more.
    Increment,
    /// `/--`: one point less.
    Decrement,
    /// Any other command: not for this bot.
    Unrecognized,
}

/// The command that a payload's `command` field stands for. The field is
/// compared as it arrived, without percent-decoding: the slash is always
/// written `%2F`, the signs either raw or percent-encoded.
pub open spec fn classification(command: Seq<char>) -> Command {
    if command == "%2F%2B%2B"@ || command == "%2F++"@ {
        Command::Increment
    } else if command == "%2F%2D%2D"@ || command == "%2F--"@ {
        Command::Decrement
    } else {
        Command::Unrecognized
    }
}

/// The command that a payload's `command` field stands for.
pub fn classify(command: &str) -> (r: Command)
    ensures
        r == classification(command@),
{
    if str_eq(command, "%2F%2B%2B") || str_eq(command, "%2F++") {
        Command::Increment
    } else if str_eq(command, "%2F%2D%2D") || str_eq(command, "%2F--") {
        Command::Decrement
    } else {
        Command::Unrecognized
    }
}

impl Command {
    /// The score that this command makes of `score`.
    pub open spec fn spec_apply(self, score: int) -> int {
        match self {
            Command::Increment => score + 1,
            Command::Decrement => score - 1,
            Command::Unrecognized => score,
        }
    }

    /// The score that this command makes of `score`.
    pub fn apply(self, score: i32) -> (r: i32)
        requires
            i32::MIN <= self.spec_apply(score as int) <= i32::MAX,
        ensures
            r == self.spec_apply(score as int),
    {
        match self {
            Command::Increment => score + 1,
            Command::Decrement => score - 1,
            Command::Unrecognized => score,
        }
    }
}

/// The user that a payload's `text` field names: the text before its first
/// space, all of it where it holds no space.
pub open spec fn target_of(text: Seq<char>) -> Seq<char> {
    text.take(position(text, ' '))
}

/// The user that a payload's `text` field names. What follows the first
/// space is a message, and is left aside.
pub fn target<'a>(text: &'a str) -> (r: &'a str)
    ensures
        r@ == target_of(text@),
{
    prefix_before(text, 0x20)
}

/// Whether a payload changes a score: its command is one of the bot's, and
/// it names a user.
pub open spec fn applies(payload: PayloadText) -> bool {
    classification(payload.command) != Command::Unrecognized && target_of(payload.text).len() > 0
}

/// The score that the user named by `payload` has after it.
pub open spec fn new_score(scores: Map<Seq<char>, int>, payload: PayloadText) -> int {
    classification(payload.command).spec_apply(score_of(scores, target_of(payload.text)))
}

/// Whether the score that `payload` leads to can be stored.
pub open spec fn fits(scores: Map<Seq<char>, int>, payload: PayloadText) -> bool {
    applies(payload) ==> i32::MIN <= new_score(scores, payload) <= i32::MAX
}

/// The scores after `payload`: the named user has the new score, all others
/// keep theirs; a payload that does not apply changes nothing.
pub open spec fn scores_after(scores: Map<Seq<char>, int>, payload: PayloadText) -> Map<
    Seq<char>,
    int,
> {
    if applies(payload) {
        scores.insert(target_of(payload.text), new_score(scores, payload))
    } else {
        scores
    }
}

/// A changed score, for whoever reports it.
#[derive(Clone, Copy, Debug, PartialEq, Eq)]
pub struct KarmaChange<'a> {
    /// The user whose score changed.
    pub target: &'a str,
    /// That user's score after the change.
    pub new_score: i32,
    /// The channel in which the command was given.
    pub channel: &'a str,
}

/// What a payload did.
#[derive(Clone, Copy, Debug, PartialEq, Eq)]
pub enum Outcome<'a> {
    /// A score changed.
    Applied(KarmaChange<'a>),
    /// The payload was not a karma command, or named nobody.
    Ignored,
}

impl<'a> Outcome<'a> {
    /// Whether this is the outcome of `payload` on `scores`.
    pub open spec fn reports(self, scores: Map<Seq<char>, int>, payload: PayloadText) -> bool {
        match self {
            Outcome::Applied(change) => {
                &&& applies(payload)
                &&& change.target@ == target_of(payload.text)
                &&& change.new_score == new_score(scores, payload)
                &&& change.channel@ == payload.channel_name
            },
            Outcome::Ignored => !applies(payload),
        }
    }
}

/// Whether `payload` can be applied to `points`: true unless the new score
/// would leave the range of `i32`.
pub fn accepts(payload: &SlackPayload, points: &ScoreStore) -> (r: bool)
    ensures
        r == fits(points@, payload@),
{
    let user = target(payload.text);
    if user.is_empty() {
        return true;
    }
    let current = points.get(user);
    match classify(payload.command) {
        Command::Increment => current < i32::MAX,
        Command::Decrement => current > i32::MIN,
        Command::Unrecognized => true,
    }
}

/// Applies a payload to the scores. A karma command that names a user moves
/// that user's score by one, from 0 for a user not seen before; anything else
/// is ignored and leaves the scores as they are.
pub fn apply<'a>(payload: &SlackPayload<'a>, points: &mut ScoreStore) -> (r: Outcome<'a>)
    requires
        fits(old(points)@, payload@),
    ensures
        r.reports(old(points)@, payload@),
        final(points)@ == scores_after(old(points)@, payload@),
{
    let command = classify(payload.command);
    if let Command::Unrecognized = command {
        return Outcome::Ignored;
    }
    let user = target(payload.text);
    if user.is_empty() {
        return Outcome::Ignored;
    }
    let current = points.get_or_init(user);
    let new_score = command.apply(current);
    points.set(user, new_score);
    assert(points@ =~= scores_after(old(points)@, payload@));
    Outcome::Applied(KarmaChange { target: user, new_score, channel: payload.channel_name })
}

/// Decodes a request body and applies it to the scores. A body that does not
/// decode changes nothing.
pub fn handle_karma<'a>(req: &'a [u8], points: &mut ScoreStore) -> (r: Result<
    Outcome<'a>,
    DecodeError,
>)
    requires
        decode(req@) matches Ok(payload) ==> fits(old(points)@, payload),
    ensures
        match decode(req@) {
            Ok(payload) => {
                &&& r matches Ok(outcome) && outcome.reports(old(points)@, payload)
                &&& final(points)@ == scores_after(old(points)@, payload)
            },
            Err(error) => {
                &&& r matches Err(e) && e == error
                &&& final(points)@ == old(points)@
            },
        },
{
    let payload = SlackPayload::from_body(req)?;
    Ok(apply(&payload, points))
}

/// The scores after each of `payloads` in turn.
pub open spec fn scores_after_all(
    scores: Map<Seq<char>, int>,
    payloads: Seq<PayloadText>,
) -> Map<Seq<char>, int>
    decreases payloads.len(),
{
    if payloads.len() == 0 {
        scores
    } else {
        scores_after(scores_after_all(scores, payloads.drop_last()), payloads.last())
    }
}

/// Whether `payload` applies `command` to the score of `user`.
pub open spec fn moves(payload: PayloadText, user: Seq<char>, command: Command) -> bool {
    applies(payload) && target_of(payload.text) == user && classification(payload.command)
        == command
}

/// How many of `payloads` apply `command` to the score of `user`.
pub open spec fn count_moves(payloads: Seq<PayloadText>, user: Seq<char>, command: Command) -> int
    decreases payloads.len(),
{
    if payloads.len() == 0 {
        0
    } else {
        count_moves(payloads.drop_last(), user, command) + if moves(
            payloads.last(),
            user,
            command,
        ) {
            1int
        } else {
            0int
        }
    }
}

/// After any sequence of payloads a user's score is the score before, plus
/// the number of increments for that user, minus the number of decrements.
/// No update is lost, whatever else the sequence holds.
pub proof fn law_score_counts_moves(
    scores: Map<Seq<char>, int>,
    payloads: Seq<PayloadText>,
    user: Seq<char>,
)
    ensures
        score_of(scores_after_all(scores, payloads), user) == score_of(scores, user) + count_moves(
            payloads,
            user,
            Command::Increment,
        ) - count_moves(payloads, user, Command::Decrement),
    decreases payloads.len(),
{
    if payloads.len() > 0 {
        law_score_counts_moves(scores, payloads.drop_last(), user);
    }
}

proof fn lemma_count_without(
    payloads: Seq<PayloadText>,
    i: int,
    user: Seq<char>,
    command: Command,
)
    requires
        0 <= i < payloads.len(),
    ensures
        count_moves(payloads, user, command) == count_moves(payloads.remove(i), user, command)
            + if moves(payloads[i], user, command) {
            1int
        } else {
            0int
        },
    decreases payloads.len(),
{
    if i == payloads.len() - 1 {
        assert(payloads.remove(i) =~= payloads.drop_last());
    } else {
        let rest = payloads.remove(i);
        assert(rest.last() == payloads.last());
        assert(rest.drop_last() =~= payloads.drop_last().remove(i));
        lemma_count_without(payloads.drop_last(), i, user, command);
    }
}

proof fn lemma_count_rearranged(
    first: Seq<PayloadText>,
    second: Seq<PayloadText>,
    user: Seq<char>,
    command: Command,
)
    requires
        first.to_multiset() == second.to_multiset(),
    ensures
        count_moves(first, user, command) == count_moves(second, user, command),
    decreases first.len(),
{
    to_multiset_len(first);
    to_multiset_len(second);
    if first.len() > 0 {
        let last = first.last();
        assert(first.contains(last));
        to_multiset_contains(first, last);
        to_multiset_contains(second, last);
        let i = choose|i: int| 0 <= i < second.len() && second[i] == last;
        to_multiset_remove(first, first.len() - 1);
        to_multiset_remove(second, i);
        assert(first.remove(first.len() - 1) =~= first.drop_last());
        lemma_count_rearranged(first.drop_last(), second.remove(i), user, command);
        lemma_count_without(second, i, user, command);
    }
}

proof fn lemma_users_after_all(
    scores: Map<Seq<char>, int>,
    payloads: Seq<PayloadText>,
    user: Seq<char>,
)
    ensures
        0 <= count_moves(payloads, user, Command::Increment),
        0 <= count_moves(payloads, user, Command::Decrement),
        scores_after_all(scores, payloads).contains_key(user) <==> scores.contains_key(user)
            || count_moves(payloads, user, Command::Increment) + count_moves(
            payloads,
            user,
            Command::Decrement,
        ) > 0,
    decreases payloads.len(),
{
    if payloads.len() > 0 {
        lemma_users_after_all(scores, payloads.drop_last(), user);
    }
}

/// Two sequences that hold the same payloads, in whatever order each, lead
/// from the same scores to the same scores.
pub proof fn law_order_does_not_matter(
    scores: Map<Seq<char>, int>,
    first: Seq<PayloadText>,
    second: Seq<PayloadText>,
)
    requires
        first.to_multiset() == second.to_multiset(),
    ensures
        scores_after_all(scores, first) == scores_after_all(scores, second),
{
    let a = scores_after_all(scores, first);
    let b = scores_after_all(scores, second);
    assert forall|user: Seq<char>|
        #[trigger] a.dom().contains(user) == b.dom().contains(user) && (a.dom().contains(user)
            ==> a[user] == b[user]) by {
        law_score_counts_moves(scores, first, user);
        law_score_counts_moves(scores, second, user);
        lemma_users_after_all(scores, first, user);
        lemma_users_after_all(scores, second, user);
        lemma_count_rearranged(first, second, user, Command::Increment);
        lemma_count_rearranged(first, second, user, Command::Decrement);
    }
    assert(a =~= b);
}

/// A listing of the scores, taken after any sequence of payloads, shows each
/// user at the score before plus that user's increments minus that user's
/// decrements, each counted whole: no score is ever seen half changed.
pub proof fn law_listing_shows_whole_moves(
    scores: Map<Seq<char>, int>,
    payloads: Seq<PayloadText>,
    entries: Seq<(String, i32)>,
    i: int,
)
    requires
        lists(entries, scores_after_all(scores, payloads)),
        0 <= i < entries.len(),
    ensures
        entries[i].1 == score_of(scores, entries[i].0@) + count_moves(
            payloads,
            entries[i].0@,
            Command::Increment,
        ) - count_moves(payloads, entries[i].0@, Command::Decrement),
{
    law_score_counts_moves(scores, payloads, entries[i].0@);
}

} // verus!
