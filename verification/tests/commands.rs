use k9_trivia::commands::{
    doctor_search_phrase, integrity_problem_count, parse_command, CommandKind,
};
use k9_trivia::episode::sanitize_pattern;

#[test]
fn command_names_resolve() {
    assert_eq!(parse_command("quote"), Some(CommandKind::Quote));
    assert_eq!(parse_command("doctor"), Some(CommandKind::Doctor));
    assert_eq!(parse_command("episode"), Some(CommandKind::Episode));
    assert_eq!(parse_command("points"), Some(CommandKind::Points));
    assert_eq!(parse_command("Points"), None);
    assert_eq!(parse_command(""), None);
    assert_eq!(parse_command("help"), None);
}

#[test]
fn doctor_phrase_covers_the_series_run() {
    assert_eq!(
        doctor_search_phrase(1).unwrap(),
        "doctor who first doctor"
    );
    assert_eq!(
        doctor_search_phrase(10).unwrap(),
        "doctor who tenth doctor"
    );
    assert_eq!(
        doctor_search_phrase(14).unwrap(),
        "doctor who fourteenth doctor"
    );
    assert!(doctor_search_phrase(0).is_none());
    assert!(doctor_search_phrase(15).is_none());
}

#[test]
fn integrity_count_tallies_missing_resources() {
    assert_eq!(integrity_problem_count(true, true, true, true, true, true), 0);
    assert_eq!(
        integrity_problem_count(false, false, false, false, false, false),
        6
    );
    assert_eq!(integrity_problem_count(true, false, true, false, true, true), 2);
}

#[test]
fn pattern_sanitizing_strips_line_controls() {
    assert_eq!(sanitize_pattern("a\nb\tc\rd"), "abcd");
    assert_eq!(sanitize_pattern("Blink"), "Blink");
    assert_eq!(sanitize_pattern("\n\r\t"), "");
    assert_eq!(sanitize_pattern(""), "");
}
