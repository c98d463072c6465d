use k9_trivia::text::{answer_matches, is_question_message, reveal_answered, str_eq};

#[test]
fn trimmed_and_lowercased_reply_matches() {
    assert!(answer_matches(" Rose  ", "rose"));
    assert!(answer_matches("BLUE", "blue"));
    assert!(answer_matches("\tDavros\r\n", "davros"));
    assert!(answer_matches("blue", "blue"));
}

#[test]
fn answer_matching_respects_content() {
    assert!(!answer_matches("red", "blue"));
    assert!(!answer_matches("blu e", "blue"));
    assert!(!answer_matches("", "blue"));
    assert!(!answer_matches("blue!", "blue"));
}

#[test]
fn stored_answers_are_matched_case_insensitively_too() {
    assert!(answer_matches("rose", "Rose"));
    assert!(answer_matches(" K9 ", "k9"));
}

#[test]
fn whitespace_only_reply_matches_only_an_empty_answer() {
    assert!(answer_matches("   ", ""));
    assert!(!answer_matches("   ", "blue"));
}

#[test]
fn question_marker_is_found_anywhere() {
    assert!(is_question_message("**Q: What color is the TARDIS?**"));
    assert!(is_question_message("intro **Q tail"));
    assert!(!is_question_message("plain chat"));
    assert!(!is_question_message("**q lowercase"));
    assert!(!is_question_message("**"));
    assert!(!is_question_message(""));
}

#[test]
fn reveal_turns_bold_into_underline() {
    assert_eq!(reveal_answered("**Q: hi?**"), "__Q: hi?__");
    assert_eq!(reveal_answered("no markup"), "no markup");
    assert_eq!(reveal_answered("***"), "__*");
    assert_eq!(reveal_answered(""), "");
}

#[test]
fn str_eq_is_exact() {
    assert!(str_eq("abc", "abc"));
    assert!(!str_eq("abc", "abd"));
    assert!(!str_eq("abc", "ab"));
    assert!(str_eq("", ""));
}
