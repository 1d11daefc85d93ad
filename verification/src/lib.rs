//! A chat quiz engine: guess-the-melody games, one short-lived session per
//! chat, over a byte-oriented key-value store.
//!
//! The library covers the part of the system with invariants worth keeping:
//! the per-chat session lifecycle (start a game, judge an answer exactly
//! once, cancel), the catalog of quiz items, and the persistence layout the
//! two share. Transport, rendering of answer choices and configuration
//! loading are collaborators outside the library.

use vstd::prelude::*;
use vstd::string::StrSliceExecFns;
use crate::config::AppConfig;
use crate::storage::{next_seed, Storage};

pub mod codec;
pub mod config;
pub mod kv;
pub mod laws;
pub mod storage;

verus! {

/// A quiz item: a melody with its media reference, the correct answer and
/// three distractor answers. Immutable once stored; identity is `id`.
#[derive(Debug, PartialEq)]
pub struct Melody {
    pub id: u64,
    pub file_id: String,
    pub right_answer: String,
    pub wrong_answers: [String; 3],
}

/// The mathematical value of a [`Melody`].
pub ghost struct MelodyModel {
    pub id: u64,
    pub file_id: Seq<char>,
    pub right_answer: Seq<char>,
    pub wrong_answers: Seq<Seq<char>>,
}

impl View for Melody {
    type V = MelodyModel;

    open spec fn view(&self) -> MelodyModel {
        MelodyModel {
            id: self.id,
            file_id: self.file_id@,
            right_answer: self.right_answer@,
            wrong_answers: self.wrong_answers@.map_values(|s: String| s@),
        }
    }
}

/// Whether a melody's answer choices obey the catalog's rule: the three
/// distractors differ from the correct answer and from each other.
pub open spec fn answers_distinct(m: MelodyModel) -> bool {
    &&& m.wrong_answers.len() == 3
    &&& m.right_answer != m.wrong_answers[0]
    &&& m.right_answer != m.wrong_answers[1]
    &&& m.right_answer != m.wrong_answers[2]
    &&& m.wrong_answers[0] != m.wrong_answers[1]
    &&& m.wrong_answers[0] != m.wrong_answers[2]
    &&& m.wrong_answers[1] != m.wrong_answers[2]
}

/// A game in progress for one chat, awaiting an answer. At most one exists
/// per chat at any time; it is created by starting a game and consumed,
/// read-and-deleted as one step, when an answer is judged.
#[derive(Debug, PartialEq)]
pub struct Game {
    pub chat_id: i64,
    pub right_answer: String,
}

/// The mathematical value of a [`Game`].
pub ghost struct GameModel {
    pub chat_id: i64,
    pub right_answer: Seq<char>,
}

impl View for Game {
    type V = GameModel;

    open spec fn view(&self) -> GameModel {
        GameModel { chat_id: self.chat_id, right_answer: self.right_answer@ }
    }
}

/// Why an engine operation could not deliver a result.
#[derive(Clone, Copy, Debug, PartialEq, Eq, Structural)]
pub enum QuizError {
    /// The catalog holds no melody to pose.
    NoItemsAvailable,
    /// Stored bytes did not deserialize.
    DecodeError,
    /// The underlying store failed.
    StorageFailure,
    /// A catalog write offered an item whose answer choices collide.
    InvalidItem,
}

/// What judging a submitted answer found.
#[derive(Clone, Copy, Debug, PartialEq, Eq, Structural)]
pub enum Outcome {
    /// The submission matches the expected answer exactly.
    Correct,
    /// A game was running and the submission does not match.
    Incorrect,
    /// No game was running for this chat.
    NoActiveGame,
}


/// How the dispatcher reads an inbound text: one of the known commands, an
/// unhandled command, or a free-text answer submission.
#[derive(Clone, Copy, Debug, PartialEq, Eq, Structural)]
pub enum Inbound {
    /// The greeting command.
    Start,
    /// The command that starts a game.
    NewGame,
    /// A command the engine does not handle.
    OtherCommand,
    /// Free text, submitted as an answer.
    Answer,
}

/// What the engine asks the caller to send back for one inbound text.
#[derive(Debug)]
pub enum Reply {
    /// Nothing to send.
    Silent,
    /// Pose this melody: its media and its answer choices.
    Question(Melody),
    /// Report how the submitted answer was judged.
    Verdict(Outcome),
    /// Report that the operation could not deliver.
    Failure(QuizError),
}

/// Whitespace that separates a command token from its arguments.
pub open spec fn is_sep(c: char) -> bool {
    c == ' ' || c == '\t' || c == '\n' || c == '\r'
}

/// The end of the token starting at `i`: the first separator at or after
/// `i`, or the text's end.
pub open spec fn token_end(text: Seq<char>, i: int) -> int
    recommends
        0 <= i <= text.len(),
    decreases text.len() - i when 0 <= i <= text.len()
{
    if i >= text.len() {
        text.len() as int
    } else if is_sep(text[i]) {
        i
    } else {
        token_end(text, i + 1)
    }
}

/// Whether any non-separator stands at or after position `i`.
pub open spec fn has_args(text: Seq<char>, i: int) -> bool {
    exists|j: int| i <= j < text.len() && !is_sep(text[j])
}

/// The classification of an inbound text: a text that does not begin with
/// `/` is an answer; otherwise the command token decides.
pub open spec fn spec_classify(text: Seq<char>) -> Inbound {
    if text.len() == 0 || text[0] != '/' {
        Inbound::Answer
    } else {
        let e = token_end(text, 0);
        if text.subrange(0, e) == "/start"@ && !has_args(text, e) {
            Inbound::Start
        } else if text.subrange(0, e) == "/game"@ && !has_args(text, e) {
            Inbound::NewGame
        } else {
            Inbound::OtherCommand
        }
    }
}

/// Whether the character at `i` separates tokens.
fn is_sep_at(text: &str, i: usize) -> (r: bool)
    requires
        i < text@.len(),
    ensures
        r == is_sep(text@[i as int]),
{
    let c = text.get_char(i);
    c == ' ' || c == '\t' || c == '\n' || c == '\r'
}

/// Classifies an inbound text as the dispatcher does.
pub fn classify(text: &str) -> (r: Inbound)
    ensures
        r == spec_classify(text@),
{
    let n = text.unicode_len();
    if n == 0 {
        return Inbound::Answer;
    }
    if text.get_char(0) != '/' {
        return Inbound::Answer;
    }
    let mut e: usize = 0;
    while e < n && !is_sep_at(text, e)
        invariant
            0 <= e <= n,
            n == text@.len(),
            token_end(text@, 0) == token_end(text@, e as int),
        decreases n - e,
    {
        e = e + 1;
    }
    assert(token_end(text@, 0) == e);
    let mut j: usize = e;
    while j < n && is_sep_at(text, j)
        invariant
            e <= j <= n,
            n == text@.len(),
            forall|k: int| e <= k < j ==> is_sep(text@[k]),
        decreases n - j,
    {
        j = j + 1;
    }
    let more = j < n;
    assert(more == has_args(text@, e as int)) by {
        if j < n {
            assert(!is_sep(text@[j as int]));
        }
    }
    proof {
        reveal_strlit("/start");
        reveal_strlit("/game");
    }
    if e == 6 && text.get_char(1) == 's' && text.get_char(2) == 't' && text.get_char(3) == 'a'
        && text.get_char(4) == 'r' && text.get_char(5) == 't' && !more {
        assert(text@.subrange(0, 6) =~= "/start"@);
        Inbound::Start
    } else if e == 5 && text.get_char(1) == 'g' && text.get_char(2) == 'a' && text.get_char(3)
        == 'm' && text.get_char(4) == 'e' && !more {
        assert(text@.subrange(0, 5) =~= "/game"@);
        Inbound::NewGame
    } else {
        proof {
            reveal_strlit("/start");
            reveal_strlit("/game");
            let e0 = token_end(text@, 0);
            assert(e0 == e);
            assert(0 <= e0 <= text@.len());
            if text@.subrange(0, e0) == "/start"@ && !has_args(text@, e0) {
                assert("/start"@.len() == 6);
                assert(text@.subrange(0, e0).len() == e0);
                assert(e0 == 6);
                assert(forall|k: int| 0 <= k < 6 ==> text@[k] == "/start"@[k]);
            }
            if text@.subrange(0, e0) == "/game"@ && !has_args(text@, e0) {
                assert("/game"@.len() == 5);
                assert(text@.subrange(0, e0).len() == e0);
                assert(e0 == 5);
                assert(forall|k: int| 0 <= k < 5 ==> text@[k] == "/game"@[k]);
            }
        }
        Inbound::OtherCommand
    }
}

/// How judging reads a session map: the verdict for a submitted answer.
pub open spec fn judge_outcome(sessions: Map<i64, Seq<char>>, chat_id: i64, answer: Seq<char>) -> Outcome {
    if sessions.contains_key(chat_id) {
        if answer == sessions[chat_id] {
            Outcome::Correct
        } else {
            Outcome::Incorrect
        }
    } else {
        Outcome::NoActiveGame
    }
}

/// How judging leaves a session map: the chat's session is consumed.
pub open spec fn judge_rest(sessions: Map<i64, Seq<char>>, chat_id: i64) -> Map<i64, Seq<char>> {
    sessions.remove(chat_id)
}

/// The quiz engine: orchestrates the session lifecycle over the storage.
pub struct Bot {
    config: AppConfig,
    storage: Storage,
}

impl Bot {
    /// The catalog the engine draws from.
    pub closed spec fn items(&self) -> Map<u64, MelodyModel> {
        self.storage.items()
    }

    /// The running games: for each chat, the expected answer.
    pub closed spec fn sessions(&self) -> Map<i64, Seq<char>> {
        self.storage.sessions()
    }

    /// The catalog's id index, in draw order.
    pub closed spec fn catalog_ids(&self) -> Seq<u64> {
        self.storage.catalog_ids()
    }

    /// The state of the seedable draw.
    pub closed spec fn rng_state(&self) -> u64 {
        self.storage.rng_state()
    }

    /// The configuration the engine was built with.
    pub closed spec fn config_spec(&self) -> AppConfig {
        self.config
    }

    /// Whether the engine's storage is consistent.
    pub closed spec fn wf(&self) -> bool {
        self.storage.wf()
    }

    /// Builds the engine over a configuration and a storage.
    pub fn new(config: AppConfig, storage: Storage) -> (b: Bot)
        ensures
            b.config_spec() == config,
            b.wf() == storage.wf(),
            b.items() == storage.items(),
            b.sessions() == storage.sessions(),
            b.catalog_ids() == storage.catalog_ids(),
            b.rng_state() == storage.rng_state(),
    {
        Bot { config, storage }
    }

    /// The configuration the engine was built with.
    pub fn config(&self) -> (r: &AppConfig)
        ensures
            *r == self.config_spec(),
    {
        &self.config
    }

    /// Starts a game for a chat: draws a melody, records its answer as the
    /// chat's session (restarting overwrites any session already there),
    /// and returns the melody to pose. Fails exactly when the catalog is
    /// empty, leaving every session as it was.
    pub fn start_game(&mut self, chat_id: i64) -> (r: Result<Melody, QuizError>)
        requires
            old(self).wf(),
        ensures
            final(self).wf(),
            final(self).items() == old(self).items(),
            final(self).catalog_ids() == old(self).catalog_ids(),
            old(self).catalog_ids().len() == 0 ==> {
                &&& r == Result::<Melody, QuizError>::Err(QuizError::NoItemsAvailable)
                &&& final(self).sessions() == old(self).sessions()
                &&& final(self).rng_state() == old(self).rng_state()
            },
            old(self).catalog_ids().len() > 0 ==> {
                &&& r matches Ok(m)
                &&& m@ == old(self).items()[old(self).catalog_ids()[(next_seed(
                    old(self).rng_state(),
                ) % (old(self).catalog_ids().len() as u64)) as int]]
                &&& final(self).sessions() == old(self).sessions().insert(
                    chat_id,
                    m@.right_answer,
                )
                &&& final(self).rng_state() == next_seed(old(self).rng_state())
            },
    {
        match self.storage.pick_random_melody() {
            None => Err(QuizError::NoItemsAvailable),
            Some(m) => {
                let game = Game { chat_id, right_answer: m.right_answer.clone() };
                let _ = self.storage.store_game(game);
                Ok(m)
            },
        }
    }

    /// Judges a submitted answer: consumes the chat's session (if any) as
    /// one step and compares exactly and case-sensitively. Without a
    /// running game the outcome is `NoActiveGame` and nothing changes.
    pub fn judge_answer(&mut self, chat_id: i64, answer: &str) -> (r: Outcome)
        requires
            old(self).wf(),
        ensures
            final(self).wf(),
            final(self).items() == old(self).items(),
            final(self).catalog_ids() == old(self).catalog_ids(),
            final(self).rng_state() == old(self).rng_state(),
            r == judge_outcome(old(self).sessions(), chat_id, answer@),
            final(self).sessions() == judge_rest(old(self).sessions(), chat_id),
    {
        match self.storage.take_answer(chat_id) {
            Some(right) => {
                if crate::codec::str_eq(answer, right.as_str()) {
                    Outcome::Correct
                } else {
                    Outcome::Incorrect
                }
            },
            None => {
                proof {
                    assert(self.sessions() =~= judge_rest(old(self).sessions(), chat_id));
                }
                Outcome::NoActiveGame
            },
        }
    }

    /// Cancels the chat's game. Never errors; cancelling an absent game is
    /// a no-op, so cancelling is idempotent.
    pub fn cancel_game(&mut self, chat_id: i64) -> (r: Result<(), QuizError>)
        requires
            old(self).wf(),
        ensures
            final(self).wf(),
            r is Ok,
            final(self).items() == old(self).items(),
            final(self).catalog_ids() == old(self).catalog_ids(),
            final(self).rng_state() == old(self).rng_state(),
            final(self).sessions() == old(self).sessions().remove(chat_id),
    {
        self.storage.delete_game(chat_id)
    }

    /// Handles one inbound text end to end: classifies it, runs the engine
    /// transition it calls for, and says what to send back.
    pub fn handle_text(&mut self, chat_id: i64, text: &str) -> (r: Reply)
        requires
            old(self).wf(),
        ensures
            final(self).wf(),
            final(self).items() == old(self).items(),
            final(self).catalog_ids() == old(self).catalog_ids(),
            (spec_classify(text@) == Inbound::Start || spec_classify(text@)
                == Inbound::OtherCommand) ==> {
                &&& r is Silent
                &&& final(self).sessions() == old(self).sessions()
                &&& final(self).rng_state() == old(self).rng_state()
            },
            spec_classify(text@) == Inbound::NewGame && old(self).catalog_ids().len() == 0 ==> {
                &&& r == Reply::Failure(QuizError::NoItemsAvailable)
                &&& final(self).sessions() == old(self).sessions()
                &&& final(self).rng_state() == old(self).rng_state()
            },
            spec_classify(text@) == Inbound::NewGame && old(self).catalog_ids().len() > 0 ==> {
                &&& r matches Reply::Question(m) && m@ == old(self).items()[old(
                    self,
                ).catalog_ids()[(next_seed(old(self).rng_state()) % (old(
                    self,
                ).catalog_ids().len() as u64)) as int]] && final(self).sessions() == old(
                    self,
                ).sessions().insert(chat_id, m@.right_answer)
                &&& final(self).rng_state() == next_seed(old(self).rng_state())
            },
            spec_classify(text@) == Inbound::Answer ==> {
                &&& r == Reply::Verdict(judge_outcome(old(self).sessions(), chat_id, text@))
                &&& final(self).sessions() == judge_rest(old(self).sessions(), chat_id)
                &&& final(self).rng_state() == old(self).rng_state()
            },
    {
        match classify(text) {
            Inbound::Start => Reply::Silent,
            Inbound::OtherCommand => Reply::Silent,
            Inbound::NewGame => match self.start_game(chat_id) {
                Ok(m) => Reply::Question(m),
                Err(e) => Reply::Failure(e),
            },
            Inbound::Answer => Reply::Verdict(self.judge_answer(chat_id, text)),
        }
    }
}

} // verus!
