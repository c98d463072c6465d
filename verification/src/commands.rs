//! Decisions behind the slash commands: which command a name selects, the
//! search phrase the doctor command builds, and the startup integrity
//! count of missing configuration and data files.

use vstd::prelude::*;

use crate::text::str_eq;

verus! {

/// The slash commands the bot serves.
#[derive(Clone, Copy, Debug, PartialEq, Eq, Structural)]
pub enum CommandKind {
    /// A random series quote.
    Quote,
    /// A picture of the n-th doctor.
    Doctor,
    /// An episode lookup by title.
    Episode,
    /// The guild's point standings.
    Points,
}

/// Which command a name selects; anything unknown selects none.
pub open spec fn parse_command_spec(name: Seq<char>) -> Option<CommandKind> {
    if name == "quote"@ {
        Some(CommandKind::Quote)
    } else if name == "doctor"@ {
        Some(CommandKind::Doctor)
    } else if name == "episode"@ {
        Some(CommandKind::Episode)
    } else if name == "points"@ {
        Some(CommandKind::Points)
    } else {
        None
    }
}

/// Resolves an interaction's command name to the command it selects.
pub fn parse_command(name: &str) -> (r: Option<CommandKind>)
    ensures
        r == parse_command_spec(name@),
{
    if str_eq(name, "quote") {
        Some(CommandKind::Quote)
    } else if str_eq(name, "doctor") {
        Some(CommandKind::Doctor)
    } else if str_eq(name, "episode") {
        Some(CommandKind::Episode)
    } else if str_eq(name, "points") {
        Some(CommandKind::Points)
    } else {
        None
    }
}

/// The English ordinal of the n-th doctor, empty outside the series' run
/// of fourteen.
pub open spec fn ordinal_name(n: int) -> Seq<char> {
    if n == 1 {
        "first"@
    } else if n == 2 {
        "second"@
    } else if n == 3 {
        "third"@
    } else if n == 4 {
        "fourth"@
    } else if n == 5 {
        "fifth"@
    } else if n == 6 {
        "sixth"@
    } else if n == 7 {
        "seventh"@
    } else if n == 8 {
        "eigth"@
    } else if n == 9 {
        "ninth"@
    } else if n == 10 {
        "tenth"@
    } else if n == 11 {
        "eleventh"@
    } else if n == 12 {
        "twelfth"@
    } else if n == 13 {
        "thirteenth"@
    } else if n == 14 {
        "fourteenth"@
    } else {
        Seq::<char>::empty()
    }
}

/// The image-search phrase for the n-th doctor, `doctor who <ordinal>
/// doctor`; none outside 1 to 14.
pub fn doctor_search_phrase(n: u8) -> (r: Option<String>)
    ensures
        (r is Some) == (1 <= n <= 14),
        match r {
            Some(phrase) => phrase@ == "doctor who "@ + ordinal_name(n as int) + " doctor"@,
            None => true,
        },
{
    if n < 1 || n > 14 {
        return None;
    }
    let ordinal: &str = match n {
        1 => "first",
        2 => "second",
        3 => "third",
        4 => "fourth",
        5 => "fifth",
        6 => "sixth",
        7 => "seventh",
        8 => "eigth",
        9 => "ninth",
        10 => "tenth",
        11 => "eleventh",
        12 => "twelfth",
        13 => "thirteenth",
        _ => "fourteenth",
    };
    let mut phrase = String::from_str("doctor who ");
    phrase.append(ordinal);
    phrase.append(" doctor");
    Some(phrase)
}

/// How many of the startup resources are missing: the bot token, the
/// image-search key, the client id, and the question, episode and quote
/// files. Zero means everything is in order.
pub fn integrity_problem_count(
    token: bool,
    api_key: bool,
    client_id: bool,
    questions: bool,
    episodes: bool,
    quotes: bool,
) -> (r: u8)
    ensures
        r as int == (if token { 0int } else { 1 }) + (if api_key { 0int } else { 1 }) + (if client_id {
            0int
        } else {
            1
        }) + (if questions { 0int } else { 1 }) + (if episodes { 0int } else { 1 }) + (if quotes {
            0int
        } else {
            1
        }),
{
    let mut problems: u8 = 0;
    if !token {
        problems += 1;
    }
    if !api_key {
        problems += 1;
    }
    if !client_id {
        problems += 1;
    }
    if !questions {
        problems += 1;
    }
    if !episodes {
        problems += 1;
    }
    if !quotes {
        problems += 1;
    }
    problems
}

} // verus!
