use k9_trivia::store::{Question, QuestionStore};
use k9_trivia::TriviaError;

fn q(question: &str, answer: &str) -> Question {
    Question {
        question: String::from(question),
        answer: String::from(answer),
    }
}

#[test]
fn find_by_text_is_exact_and_case_sensitive() {
    let store = QuestionStore::from_questions(vec![
        q("Who created the Daleks?", "davros"),
        q("What color is the TARDIS?", "blue"),
    ]);
    let hit = store.find_by_text("What color is the TARDIS?").unwrap();
    assert_eq!(hit.answer, "blue");
    assert!(store.find_by_text("what color is the tardis?").is_none());
    assert!(store.find_by_text("What color is the TARDIS").is_none());
    assert!(store.find_by_text("").is_none());
}

#[test]
fn find_by_text_returns_the_first_match() {
    let store = QuestionStore::from_questions(vec![
        q("Same text", "first answer"),
        q("Same text", "second answer"),
    ]);
    let hit = store.find_by_text("Same text").unwrap();
    assert_eq!(hit.answer, "first answer");
}

#[test]
fn pick_random_fails_only_on_an_empty_set() {
    let empty = QuestionStore::from_questions(Vec::new());
    assert_eq!(empty.len(), 0);
    assert_eq!(empty.pick_random().unwrap_err(), TriviaError::EmptySet);

    let single = QuestionStore::from_questions(vec![q("Only one", "yes")]);
    let picked = single.pick_random().unwrap();
    assert_eq!(picked.question, "Only one");
}

#[test]
fn pick_random_is_roughly_uniform() {
    let store = QuestionStore::from_questions(vec![
        q("q0", "a"),
        q("q1", "a"),
        q("q2", "a"),
        q("q3", "a"),
    ]);
    let mut counts = [0u32; 4];
    for _ in 0..1000 {
        let picked = store.pick_random().unwrap();
        match picked.question.as_str() {
            "q0" => counts[0] += 1,
            "q1" => counts[1] += 1,
            "q2" => counts[2] += 1,
            "q3" => counts[3] += 1,
            _ => panic!("picked a question that was never loaded"),
        }
    }
    // Expected 250 each; bounds loose enough that a fair draw virtually
    // never trips them.
    for count in counts {
        assert!(count > 150 && count < 350, "skewed draw: {}", count);
    }
}
