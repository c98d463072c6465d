use k9_trivia::ledger::Ledger;
use k9_trivia::round::{ReplyOutcome, Round};
use k9_trivia::store::{Question, QuestionStore};
use k9_trivia::TriviaError;

fn tardis_store() -> QuestionStore {
    QuestionStore::from_questions(vec![Question {
        question: String::from("What color is the TARDIS?"),
        answer: String::from("blue"),
    }])
}

#[test]
fn correct_reply_rewards_and_starts_reveal() {
    let store = tardis_store();
    let mut ledger = Ledger::new();
    let mut round = Round::new();
    assert!(round.is_idle());

    let published = round.begin(&store).unwrap();
    assert_eq!(published, "What color is the TARDIS?");
    assert!(round.is_awaiting_answer());

    let out = round.on_reply(&store, &mut ledger, &published, "Blue", "rose", Some("g1"));
    match out {
        ReplyOutcome::Correct { reveal, new_score } => {
            assert_eq!(new_score, Some(1));
            assert_eq!(reveal, "What color is the TARDIS?");
        }
        _ => panic!("a correct reply must be recognized"),
    }
    assert!(round.is_rewarding());
    assert_eq!(ledger.len(), 1);
    assert_eq!(ledger.score_of_key("rose", "g1"), 1);

    round.finish_reveal();
    assert!(round.is_idle());
}

#[test]
fn reveal_text_underlines_bold_spans() {
    let store = QuestionStore::from_questions(vec![Question {
        question: String::from("**Q**: What color is the TARDIS?"),
        answer: String::from("blue"),
    }]);
    let mut ledger = Ledger::new();
    let mut round = Round::new();
    let published = round.begin(&store).unwrap();
    let out = round.on_reply(&store, &mut ledger, &published, "blue", "rose", Some("g1"));
    match out {
        ReplyOutcome::Correct { reveal, .. } => {
            assert_eq!(reveal, "__Q__: What color is the TARDIS?");
        }
        _ => panic!("a correct reply must be recognized"),
    }
}

#[test]
fn reply_to_unknown_target_changes_nothing() {
    let store = tardis_store();
    let mut ledger = Ledger::new();
    let mut round = Round::new();
    round.begin(&store).unwrap();

    let out = round.on_reply(
        &store,
        &mut ledger,
        "An ordinary chat message",
        "blue",
        "rose",
        Some("g1"),
    );
    assert!(matches!(out, ReplyOutcome::NotAQuestion));
    assert!(round.is_awaiting_answer());
    assert_eq!(ledger.len(), 0);
}

#[test]
fn wrong_answer_keeps_the_round_waiting() {
    let store = tardis_store();
    let mut ledger = Ledger::new();
    let mut round = Round::new();
    let published = round.begin(&store).unwrap();

    let out = round.on_reply(&store, &mut ledger, &published, "red", "rose", Some("g1"));
    assert!(matches!(out, ReplyOutcome::NoMatch));
    assert!(round.is_awaiting_answer());
    assert_eq!(ledger.len(), 0);
    assert_eq!(ledger.score_of_key("rose", "g1"), 0);
}

#[test]
fn direct_message_never_creates_a_score() {
    let store = tardis_store();
    let mut ledger = Ledger::new();
    let mut round = Round::new();
    let published = round.begin(&store).unwrap();

    let out = round.on_reply(&store, &mut ledger, &published, "blue", "rose", None);
    match out {
        ReplyOutcome::Correct { new_score, .. } => assert_eq!(new_score, None),
        _ => panic!("a correct reply must be recognized even in a direct message"),
    }
    assert!(round.is_rewarding());
    assert_eq!(ledger.len(), 0);
}

#[test]
fn idle_round_leaves_replies_alone() {
    let store = tardis_store();
    let mut ledger = Ledger::new();
    let mut round = Round::new();

    let out = round.on_reply(
        &store,
        &mut ledger,
        "What color is the TARDIS?",
        "blue",
        "rose",
        Some("g1"),
    );
    assert!(matches!(out, ReplyOutcome::Inactive));
    assert!(round.is_idle());
    assert_eq!(ledger.len(), 0);
}

#[test]
fn empty_store_cannot_start_a_round() {
    let store = QuestionStore::from_questions(Vec::new());
    let mut round = Round::new();
    let res = round.begin(&store);
    assert_eq!(res.unwrap_err(), TriviaError::EmptySet);
    assert!(round.is_idle());
}
