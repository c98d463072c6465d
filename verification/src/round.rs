//! The trivia round state machine: a round is idle, awaiting an answer to
//! a published question, or rewarding a correct one. Replies are correlated
//! to a live question by exact text, matched against its answer after
//! normalization, and a correct reply rewards the replier through the point
//! ledger — unless the reply came outside a guild, in which case no score
//! is ever touched.

use vstd::prelude::*;

use crate::errors::TriviaError;
use crate::ledger::{score_of, spec_increment, Ledger};
use crate::store::{find_spec, Question, QuestionModel, QuestionStore};
use crate::text::{answer_matches, answer_matches_spec, reveal_answered, reveal_spec};

verus! {

enum RoundState {
    Idle,
    AwaitingAnswer { question: Question },
    Rewarding { question: Question },
}

/// Spec-level image of a round.
#[verifier::ext_equal]
pub ghost enum RoundModel {
    Idle,
    AwaitingAnswer(QuestionModel),
    Rewarding(QuestionModel),
}

/// What processing one candidate reply came to.
pub enum ReplyOutcome {
    /// The round is not waiting for an answer; the reply was left alone.
    Inactive,
    /// The reply's target is not a live trivia question. Swallowed by
    /// design: this is "not a trivia answer", not a fault, and nothing is
    /// reported to the user.
    NotAQuestion,
    /// The reply targets a live question but is not its answer; the round
    /// keeps waiting, without limit on attempts and without penalty.
    NoMatch,
    /// The reply answers the question. `reveal` is the rewritten text for
    /// the published message; `new_score` is the replier's score after the
    /// reward, and `None` when the reply came outside a guild, where no
    /// score is kept.
    Correct { reveal: String, new_score: Option<u64> },
}

/// Whether the reply answers the live question its target text correlates
/// to: some stored question has exactly that text and the normalized reply
/// equals its lowercased answer.
pub open spec fn correct_reply(
    store: Seq<QuestionModel>,
    target: Seq<char>,
    reply: Seq<char>,
) -> bool {
    match find_spec(store, target) {
        Some(q) => answer_matches_spec(reply, q.answer),
        None => false,
    }
}

fn duplicate_question(q: &Question) -> (r: Question)
    ensures
        r@ == q@,
{
    Question { question: q.question.clone(), answer: q.answer.clone() }
}

/// One trivia round in one posting channel. Rounds in different channels
/// run independently and share only the question store and the ledger.
pub struct Round {
    state: RoundState,
}

impl View for Round {
    type V = RoundModel;

    closed spec fn view(&self) -> RoundModel {
        match self.state {
            RoundState::Idle => RoundModel::Idle,
            RoundState::AwaitingAnswer { question } => RoundModel::AwaitingAnswer(question@),
            RoundState::Rewarding { question } => RoundModel::Rewarding(question@),
        }
    }
}

impl Round {
    /// A fresh round, idle until a question is published.
    pub fn new() -> (r: Round)
        ensures
            r@ is Idle,
    {
        Round { state: RoundState::Idle }
    }

    /// Whether the round has no published question at the moment.
    pub fn is_idle(&self) -> (b: bool)
        ensures
            b == (self@ is Idle),
    {
        match &self.state {
            RoundState::Idle => true,
            _ => false,
        }
    }

    /// Whether the round waits for a correct reply.
    pub fn is_awaiting_answer(&self) -> (b: bool)
        ensures
            b == (self@ is AwaitingAnswer),
    {
        match &self.state {
            RoundState::AwaitingAnswer { .. } => true,
            _ => false,
        }
    }

    /// Whether the round is in its reward phase, between the correct reply
    /// and the next question.
    pub fn is_rewarding(&self) -> (b: bool)
        ensures
            b == (self@ is Rewarding),
    {
        match &self.state {
            RoundState::Rewarding { .. } => true,
            _ => false,
        }
    }

    /// Starts a round: picks a random question and hands back its text for
    /// the caller to publish. With nothing loaded the round stays idle and
    /// reports the empty set instead of publishing.
    pub fn begin(&mut self, store: &QuestionStore) -> (res: Result<String, TriviaError>)
        requires
            old(self)@ is Idle,
        ensures
            (res is Ok) == (store@.len() > 0),
            match res {
                Ok(text) => final(self)@ matches RoundModel::AwaitingAnswer(q)
                    && (exists|i: int| 0 <= i < store@.len() && q == store@[i])
                    && text@ == q.question,
                Err(e) => e == TriviaError::EmptySet && final(self)@ is Idle,
            },
    {
        match store.pick_random() {
            Ok(q) => {
                let text = q.question.clone();
                self.state = RoundState::AwaitingAnswer { question: duplicate_question(q) };
                Ok(text)
            },
            Err(e) => Err(e),
        }
    }

    /// Judges one candidate reply while the round awaits an answer.
    ///
    /// `target_text` is the text of the message the reply points at. Only
    /// when it exactly equals a stored question's text is the reply a
    /// candidate at all; otherwise nothing changes and nothing is reported.
    /// A correct reply moves the round to its reward phase and, inside a
    /// guild, raises the replier's score by one; outside a guild (a direct
    /// message) the ledger is never touched.
    pub fn on_reply(
        &mut self,
        store: &QuestionStore,
        ledger: &mut Ledger,
        target_text: &str,
        reply_text: &str,
        replier_id: &str,
        guild_id: Option<&str>,
    ) -> (out: ReplyOutcome)
        requires
            old(ledger).wf(),
            match guild_id {
                Some(g) => score_of(old(ledger)@, replier_id@, g@) < u64::MAX,
                None => true,
            },
        ensures
            final(ledger).wf(),
            !(old(self)@ is AwaitingAnswer) ==> out is Inactive && *final(self) == *old(self)
                && *final(ledger) == *old(ledger),
            old(self)@ is AwaitingAnswer && find_spec(store@, target_text@) is None ==> out
                is NotAQuestion && *final(self) == *old(self) && *final(ledger) == *old(ledger),
            old(self)@ is AwaitingAnswer && find_spec(store@, target_text@) is Some && !correct_reply(
                store@,
                target_text@,
                reply_text@,
            ) ==> out is NoMatch && *final(self) == *old(self) && *final(ledger) == *old(ledger),
            old(self)@ is AwaitingAnswer && correct_reply(store@, target_text@, reply_text@) ==> ({
                &&& find_spec(store@, target_text@) matches Some(q) && final(self)@
                    == RoundModel::Rewarding(q)
                &&& out matches ReplyOutcome::Correct { reveal, new_score } && reveal@
                    == reveal_spec(target_text@) && (match guild_id {
                    Some(g) => new_score matches Some(ns) && final(ledger)@ == spec_increment(
                        old(ledger)@,
                        replier_id@,
                        g@,
                    ) && ns as nat == score_of(old(ledger)@, replier_id@, g@) + 1,
                    None => new_score is None && *final(ledger) == *old(ledger),
                })
            }),
    {
        let awaiting = match &self.state {
            RoundState::AwaitingAnswer { .. } => true,
            _ => false,
        };
        if !awaiting {
            return ReplyOutcome::Inactive;
        }
        match store.find_by_text(target_text) {
            None => ReplyOutcome::NotAQuestion,
            Some(q) => {
                if answer_matches(reply_text, q.answer.as_str()) {
                    let reveal = reveal_answered(target_text);
                    let new_score = match guild_id {
                        Some(g) => Some(ledger.increment(replier_id, g)),
                        None => None,
                    };
                    self.state = RoundState::Rewarding { question: duplicate_question(q) };
                    ReplyOutcome::Correct { reveal, new_score }
                } else {
                    ReplyOutcome::NoMatch
                }
            },
        }
    }

    /// Ends the reward phase once the answered question has been revealed
    /// and the fixed delay has passed; the round is idle again and the
    /// caller starts the next cycle with `begin`.
    pub fn finish_reveal(&mut self)
        requires
            old(self)@ is Rewarding,
        ensures
            final(self)@ is Idle,
    {
        self.state = RoundState::Idle;
    }
}

} // verus!
