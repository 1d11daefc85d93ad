//! The engine's cross-operation guarantees, stated and proved over the
//! session-map model that the engine's contracts speak in: a start is an
//! `insert`, a cancel is a `remove`, and a judging reads `judge_outcome`
//! and leaves `judge_rest`.
//!
//! In-flight operations on one engine serialize through its exclusive
//! borrow; these lemmas speak of that serialized order.

use vstd::prelude::*;
use crate::{judge_outcome, judge_rest, Outcome};

verus! {

/// The verdicts of a run of judgings against one chat, applied in order.
pub open spec fn judge_outcomes(
    sessions: Map<i64, Seq<char>>,
    chat_id: i64,
    answers: Seq<Seq<char>>,
) -> Seq<Outcome>
    decreases answers.len(),
{
    if answers.len() == 0 {
        Seq::empty()
    } else {
        seq![judge_outcome(sessions, chat_id, answers[0])] + judge_outcomes(
            judge_rest(sessions, chat_id),
            chat_id,
            answers.drop_first(),
        )
    }
}

/// How many verdicts of a run actually judged an answer.
pub open spec fn decided_count(outcomes: Seq<Outcome>) -> int
    decreases outcomes.len(),
{
    if outcomes.len() == 0 {
        0
    } else {
        (if outcomes[0] == Outcome::NoActiveGame {
            0int
        } else {
            1int
        }) + decided_count(outcomes.drop_first())
    }
}

/// At-most-once judging: however many judgings run in sequence against one
/// chat after a single start, exactly one observes `Correct` or
/// `Incorrect` (none, when no game was running); all others observe
/// `NoActiveGame`.
pub proof fn lemma_at_most_once_judging(
    sessions: Map<i64, Seq<char>>,
    chat_id: i64,
    answers: Seq<Seq<char>>,
)
    ensures
        decided_count(judge_outcomes(sessions, chat_id, answers)) == if sessions.contains_key(
            chat_id,
        ) && answers.len() > 0 {
            1int
        } else {
            0int
        },
    decreases answers.len(),
{
    if answers.len() > 0 {
        let rest = judge_rest(sessions, chat_id);
        lemma_at_most_once_judging(rest, chat_id, answers.drop_first());
        let out = judge_outcomes(sessions, chat_id, answers);
        assert(out[0] == judge_outcome(sessions, chat_id, answers[0]));
        assert(out.drop_first() =~= judge_outcomes(rest, chat_id, answers.drop_first()));
    }
}

/// Cancelling is idempotent: a second cancel changes nothing, and after a
/// cancel no session remains for the chat.
pub proof fn lemma_cancel_idempotent(sessions: Map<i64, Seq<char>>, chat_id: i64)
    ensures
        sessions.remove(chat_id).remove(chat_id) == sessions.remove(chat_id),
        !sessions.remove(chat_id).contains_key(chat_id),
{
    assert(sessions.remove(chat_id).remove(chat_id) =~= sessions.remove(chat_id));
}

/// Restarting overwrites: two starts without an intervening judging leave
/// exactly the second start's answer as the chat's session.
pub proof fn lemma_restart_overwrites(
    sessions: Map<i64, Seq<char>>,
    chat_id: i64,
    first: Seq<char>,
    second: Seq<char>,
)
    ensures
        sessions.insert(chat_id, first).insert(chat_id, second) == sessions.insert(
            chat_id,
            second,
        ),
        sessions.insert(chat_id, first).insert(chat_id, second)[chat_id] == second,
{
    assert(sessions.insert(chat_id, first).insert(chat_id, second) =~= sessions.insert(
        chat_id,
        second,
    ));
}

/// Isolation: starting, judging or cancelling on one chat neither observes
/// nor changes another chat's session, and another chat's verdicts do not
/// change.
pub proof fn lemma_chat_isolation(
    sessions: Map<i64, Seq<char>>,
    chat_id: i64,
    other: i64,
    answer: Seq<char>,
)
    requires
        chat_id != other,
    ensures
        forall|a: Seq<char>|
            #[trigger] sessions.insert(chat_id, a).contains_key(other) == sessions.contains_key(
                other,
            ),
        forall|a: Seq<char>|
            sessions.contains_key(other) ==> #[trigger] sessions.insert(chat_id, a)[other]
                == sessions[other],
        judge_rest(sessions, chat_id).contains_key(other) == sessions.contains_key(other),
        sessions.contains_key(other) ==> judge_rest(sessions, chat_id)[other] == sessions[other],
        forall|a: Seq<char>|
            #[trigger] judge_outcome(sessions.insert(chat_id, a), other, answer)
                == judge_outcome(sessions, other, answer),
        judge_outcome(judge_rest(sessions, chat_id), other, answer) == judge_outcome(
            sessions,
            other,
            answer,
        ),
{
}

} // verus!
