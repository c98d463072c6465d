use k9_trivia::ledger::{Ledger, ScoreEntry};

#[test]
fn increment_creates_then_increments() {
    let mut ledger = Ledger::new();
    assert_eq!(ledger.len(), 0);
    let first = ledger.increment("u1", "g1");
    assert_eq!(first, 1);
    assert_eq!(ledger.len(), 1);
    let second = ledger.increment("u1", "g1");
    assert_eq!(second, 2);
    assert_eq!(ledger.len(), 1);
    assert_eq!(ledger.score_of_key("u1", "g1"), 2);
}

#[test]
fn repeated_increments_accumulate() {
    let mut ledger = Ledger::new();
    let mut last = 0;
    for _ in 0..50 {
        last = ledger.increment("whovian", "tardis-fans");
    }
    assert_eq!(last, 50);
    assert_eq!(ledger.score_of_key("whovian", "tardis-fans"), 50);
    assert_eq!(ledger.len(), 1);
}

#[test]
fn guilds_and_users_do_not_share_scores() {
    let mut ledger = Ledger::new();
    ledger.increment("u1", "g1");
    ledger.increment("u1", "g1");
    ledger.increment("u1", "g2");
    ledger.increment("u2", "g1");
    assert_eq!(ledger.score_of_key("u1", "g1"), 2);
    assert_eq!(ledger.score_of_key("u1", "g2"), 1);
    assert_eq!(ledger.score_of_key("u2", "g1"), 1);
    assert_eq!(ledger.score_of_key("u2", "g2"), 0);
    assert_eq!(ledger.len(), 3);
}

#[test]
fn leaderboard_sorts_descending_stable_and_filters() {
    let mut ledger = Ledger::new();
    // u1 and u3 tie at three points; u1 was seen first.
    for _ in 0..3 {
        ledger.increment("u1", "g1");
    }
    ledger.increment("u2", "g1");
    for _ in 0..3 {
        ledger.increment("u3", "g1");
    }
    ledger.increment("outsider", "g2");

    let board = ledger.leaderboard("g1");
    assert_eq!(board.len(), 3);
    assert_eq!(board[0].user_id, "u1");
    assert_eq!(board[0].score, 3);
    assert_eq!(board[1].user_id, "u3");
    assert_eq!(board[1].score, 3);
    assert_eq!(board[2].user_id, "u2");
    assert_eq!(board[2].score, 1);
    for entry in &board {
        assert_eq!(entry.guild_id, "g1");
    }
}

#[test]
fn leaderboard_of_unknown_guild_is_empty() {
    let mut ledger = Ledger::new();
    ledger.increment("u1", "g1");
    let board = ledger.leaderboard("nowhere");
    assert_eq!(board.len(), 0);
}

#[test]
fn rebuilding_from_rows_keeps_first_of_duplicate_keys() {
    let rows = vec![
        ScoreEntry {
            user_id: String::from("u1"),
            guild_id: String::from("g1"),
            score: 5,
        },
        ScoreEntry {
            user_id: String::from("u2"),
            guild_id: String::from("g1"),
            score: 2,
        },
        ScoreEntry {
            user_id: String::from("u1"),
            guild_id: String::from("g1"),
            score: 9,
        },
    ];
    let ledger = Ledger::from_entries(rows);
    assert_eq!(ledger.len(), 2);
    assert_eq!(ledger.score_of_key("u1", "g1"), 5);
    assert!(ledger.has_key("u2", "g1"));
    assert!(!ledger.has_key("u3", "g1"));
}

#[test]
fn score_of_absent_key_is_zero() {
    let ledger = Ledger::new();
    assert_eq!(ledger.score_of_key("nobody", "nowhere"), 0);
}
