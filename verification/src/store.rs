//! The question store: the immutable set of trivia question/answer pairs,
//! exact-text lookup for correlating a reply with its question, and random
//! selection of the next question to publish.

use vstd::prelude::*;

use crate::errors::TriviaError;
use crate::text::str_eq;

verus! {

/// One trivia entry: the exact text the bot publishes, and the expected
/// answer. Its identity is the question text.
#[derive(Debug)]
pub struct Question {
    pub question: String,
    pub answer: String,
}

/// Spec-level image of a question.
#[verifier::ext_equal]
pub ghost struct QuestionModel {
    pub question: Seq<char>,
    pub answer: Seq<char>,
}

impl View for Question {
    type V = QuestionModel;

    open spec fn view(&self) -> QuestionModel {
        QuestionModel { question: self.question@, answer: self.answer@ }
    }
}

/// The images of a sequence of questions.
pub open spec fn question_models(qs: Seq<Question>) -> Seq<QuestionModel> {
    qs.map_values(|q: Question| q@)
}

/// The first stored question whose text is exactly `text`, if any.
pub open spec fn find_spec(s: Seq<QuestionModel>, text: Seq<char>) -> Option<QuestionModel>
    decreases s.len(),
{
    if s.len() == 0 {
        None
    } else if s[0].question == text {
        Some(s[0])
    } else {
        find_spec(s.drop_first(), text)
    }
}

/// The loaded set of questions, ordered as loaded and never mutated
/// afterwards.
pub struct QuestionStore {
    questions: Vec<Question>,
}

impl View for QuestionStore {
    type V = Seq<QuestionModel>;

    closed spec fn view(&self) -> Seq<QuestionModel> {
        question_models(self.questions@)
    }
}

impl QuestionStore {
    /// Wraps an already-decoded list of question/answer pairs. A caller
    /// whose source failed to load passes an empty list: an empty store is
    /// valid and simply has nothing to publish.
    pub fn from_questions(questions: Vec<Question>) -> (s: QuestionStore)
        ensures
            s@ == question_models(questions@),
    {
        QuestionStore { questions }
    }

    /// How many questions are loaded.
    pub fn len(&self) -> (n: usize)
        ensures
            n == self@.len(),
    {
        self.questions.len()
    }

    /// The question whose text exactly equals `text`: the correlation step
    /// that decides whether a reply targets a live trivia prompt. The
    /// comparison is case-sensitive and exact.
    pub fn find_by_text(&self, text: &str) -> (r: Option<&Question>)
        ensures
            match r {
                Some(q) => find_spec(self@, text@) == Some(q@),
                None => find_spec(self@, text@) is None,
            },
    {
        let n = self.questions.len();
        let mut i: usize = 0;
        proof {
            assert(self@.skip(0) =~= self@);
        }
        while i < n
            invariant
                n == self.questions@.len(),
                i <= n,
                find_spec(self@, text@) == find_spec(self@.skip(i as int), text@),
            decreases n - i,
        {
            let ghost pending = self@.skip(i as int);
            proof {
                assert(pending[0] == self@[i as int]);
            }
            if str_eq(self.questions[i].question.as_str(), text) {
                return Some(&self.questions[i]);
            }
            proof {
                assert(pending.drop_first() =~= self@.skip(i + 1));
            }
            i += 1;
        }
        proof {
            assert(self@.skip(n as int) =~= Seq::<QuestionModel>::empty());
        }
        None
    }

    /// A random question of the set, each loaded question a possible
    /// result; fails exactly when no questions are loaded.
    pub fn pick_random(&self) -> (r: Result<&Question, TriviaError>)
        ensures
            (r is Ok) == (self@.len() > 0),
            match r {
                Ok(q) => exists|i: int| 0 <= i < self@.len() && q@ == self@[i],
                Err(e) => e == TriviaError::EmptySet,
            },
    {
        let n = self.questions.len();
        if n == 0 {
            return Err(TriviaError::EmptySet);
        }
        let i = rand_below(n);
        proof {
            assert(self@[i as int] == self.questions@[i as int]@);
        }
        Ok(&self.questions[i])
    }
}

/// Relies on rand's `Rng::gen_range` over `0..n`: it returns a uniformly
/// drawn value of that range and panics only when the range is empty, which
/// the precondition rules out. Nothing more than the bound can be promised
/// of a random result.
#[verifier::external_body]
fn rand_below(n: usize) -> (r: usize)
    requires
        n > 0,
    ensures
        r < n,
{
    rand::Rng::gen_range(&mut rand::thread_rng(), 0..n)
}

} // verus!
