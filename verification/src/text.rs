//! Text rules of the trivia engine: answer normalization (trim and ASCII
//! lowercase), exact text equality for question correlation, the marker that
//! identifies a published question message, and the rewrite that reveals an
//! answered question.

use vstd::prelude::*;

verus! {

/// Whitespace that answer normalization strips from both ends of a reply.
pub open spec fn is_trivia_space(c: char) -> bool {
    c == ' ' || c == '\t' || c == '\n' || c == '\r'
}

/// ASCII lowercasing of a single character; anything but `A`..`Z` is kept.
pub open spec fn lower_char(c: char) -> char {
    if 'A' <= c && c <= 'Z' {
        ((c as u32) + 32) as char
    } else {
        c
    }
}

/// ASCII lowercasing of a whole text.
pub open spec fn lower_seq(s: Seq<char>) -> Seq<char> {
    s.map_values(|c: char| lower_char(c))
}

/// Leading whitespace removed.
pub open spec fn trim_start_spec(s: Seq<char>) -> Seq<char>
    decreases s.len(),
{
    if s.len() > 0 && is_trivia_space(s[0]) {
        trim_start_spec(s.drop_first())
    } else {
        s
    }
}

/// Trailing whitespace removed.
pub open spec fn trim_end_spec(s: Seq<char>) -> Seq<char>
    decreases s.len(),
{
    if s.len() > 0 && is_trivia_space(s[s.len() - 1]) {
        trim_end_spec(s.drop_last())
    } else {
        s
    }
}

/// Whitespace removed from both ends.
pub open spec fn trim_spec(s: Seq<char>) -> Seq<char> {
    trim_end_spec(trim_start_spec(s))
}

/// A candidate reply, normalized for matching: trimmed, then lowercased.
pub open spec fn normalize_spec(s: Seq<char>) -> Seq<char> {
    lower_seq(trim_spec(s))
}

/// When a reply counts as the right answer: its normalization equals the
/// lowercased stored answer.
pub open spec fn answer_matches_spec(reply: Seq<char>, answer: Seq<char>) -> bool {
    normalize_spec(reply) == lower_seq(answer)
}

proof fn lemma_trim_start_skip_spaces(s: Seq<char>, i: int)
    requires
        0 <= i <= s.len(),
        forall|j: int| 0 <= j < i ==> is_trivia_space(s[j]),
    ensures
        trim_start_spec(s) == trim_start_spec(s.skip(i)),
    decreases i,
{
    if i > 0 {
        assert(s.drop_first() =~= s.skip(1));
        lemma_trim_start_skip_spaces(s.skip(1), i - 1);
        assert(s.skip(1).skip(i - 1) =~= s.skip(i));
    } else {
        assert(s.skip(0) =~= s);
    }
}

proof fn lemma_trim_end_drop_spaces(s: Seq<char>, i: int)
    requires
        0 <= i <= s.len(),
        forall|j: int| i <= j < s.len() ==> is_trivia_space(s[j]),
    ensures
        trim_end_spec(s) == trim_end_spec(s.take(i)),
    decreases s.len() - i,
{
    if i < s.len() {
        assert(s.drop_last() =~= s.take(s.len() - 1));
        lemma_trim_end_drop_spaces(s.take(s.len() - 1), i);
        assert(s.take(s.len() - 1).take(i) =~= s.take(i));
    } else {
        assert(s.take(i) =~= s);
    }
}

fn lower_char_exec(c: char) -> (r: char)
    ensures
        r == lower_char(c),
{
    if 'A' <= c && c <= 'Z' {
        (c as u8 + 32) as char
    } else {
        c
    }
}

/// Exact, case-sensitive text equality, used to correlate a reply's target
/// message with a stored question.
pub fn str_eq(a: &str, b: &str) -> (r: bool)
    ensures
        r == (a@ == b@),
{
    let na = a.unicode_len();
    let nb = b.unicode_len();
    if na != nb {
        return false;
    }
    let mut k: usize = 0;
    while k < na
        invariant
            na == a@.len(),
            na == b@.len(),
            k <= na,
            forall|j: int| 0 <= j < k ==> a@[j] == b@[j],
        decreases na - k,
    {
        if a.get_char(k) != b.get_char(k) {
            return false;
        }
        k += 1;
    }
    proof {
        assert(a@ =~= b@);
    }
    true
}

/// Whether a candidate reply matches a stored answer: the reply is trimmed
/// and lowercased, the answer lowercased, and the two compared for exact
/// equality. `" Rose  "` therefore matches the stored answer `"rose"`.
pub fn answer_matches(reply: &str, answer: &str) -> (r: bool)
    ensures
        r == answer_matches_spec(reply@, answer@),
{
    let n = reply.unicode_len();
    let m = answer.unicode_len();

    // Strip leading whitespace.
    let mut start: usize = 0;
    while start < n && is_space_exec(reply.get_char(start))
        invariant
            n == reply@.len(),
            start <= n,
            forall|j: int| 0 <= j < start ==> is_trivia_space(reply@[j]),
        decreases n - start,
    {
        start += 1;
    }
    proof {
        lemma_trim_start_skip_spaces(reply@, start as int);
    }
    if start == n {
        proof {
            assert(reply@.skip(n as int) =~= Seq::<char>::empty());
            assert(trim_spec(reply@) =~= Seq::<char>::empty());
            assert(normalize_spec(reply@).len() == 0);
            assert(lower_seq(answer@).len() == answer@.len());
            if m == 0 {
                assert(normalize_spec(reply@) =~= lower_seq(answer@));
            }
        }
        return m == 0;
    }
    // The rest of the reply, `reply@.skip(start)`, begins with a
    // non-whitespace character, so trimming its start changes nothing.
    let ghost rest = reply@.skip(start as int);
    proof {
        assert(rest[0] == reply@[start as int]);
        assert(trim_start_spec(rest) == rest);
    }

    // Strip trailing whitespace.
    let mut end: usize = n;
    while end > start && is_space_exec(reply.get_char(end - 1))
        invariant
            n == reply@.len(),
            start <= end <= n,
            !is_trivia_space(reply@[start as int]),
            forall|j: int| end <= j < n ==> is_trivia_space(reply@[j]),
        decreases end,
    {
        end -= 1;
    }
    proof {
        assert(forall|j: int| end - start <= j < rest.len() ==> is_trivia_space(rest[j]));
        lemma_trim_end_drop_spaces(rest, end - start);
        let core = rest.take(end - start);
        assert(core[core.len() - 1] == reply@[end - 1]);
        assert(trim_end_spec(core) == core);
        assert(trim_spec(reply@) == core);
    }

    // Compare the trimmed reply with the answer, both lowercased.
    if end - start != m {
        proof {
            assert(normalize_spec(reply@).len() == end - start);
            assert(lower_seq(answer@).len() == m);
        }
        return false;
    }
    let mut k: usize = 0;
    while k < m
        invariant
            n == reply@.len(),
            m == answer@.len(),
            start <= end <= n,
            end - start == m,
            k <= m,
            trim_spec(reply@) == reply@.skip(start as int).take(m as int),
            forall|j: int|
                0 <= j < k ==> lower_char(reply@[start + j]) == lower_char(answer@[j]),
        decreases m - k,
    {
        let rc = lower_char_exec(reply.get_char(start + k));
        let ac = lower_char_exec(answer.get_char(k));
        if rc != ac {
            proof {
                let t = trim_spec(reply@);
                assert(t[k as int] == reply@[start + k]);
                assert(normalize_spec(reply@)[k as int] == lower_char(reply@[start + k]));
                assert(lower_seq(answer@)[k as int] == lower_char(answer@[k as int]));
            }
            return false;
        }
        k += 1;
    }
    proof {
        let t = trim_spec(reply@);
        assert(forall|j: int| 0 <= j < m ==> t[j] == reply@[start + j]);
        assert(normalize_spec(reply@) =~= lower_seq(answer@));
    }
    true
}

fn is_space_exec(c: char) -> (r: bool)
    ensures
        r == is_trivia_space(c),
{
    c == ' ' || c == '\t' || c == '\n' || c == '\r'
}

/// Whether the text carries the `**Q` marker that every published trivia
/// question starts its body with; only such messages are candidates for
/// correlation.
pub open spec fn has_question_marker(s: Seq<char>) -> bool {
    exists|i: int|
        0 <= i && i + 2 < s.len() && #[trigger] s[i] == '*' && s[i + 1] == '*' && s[i + 2] == 'Q'
}

/// Whether a message text looks like a published trivia question.
pub fn is_question_message(s: &str) -> (r: bool)
    ensures
        r == has_question_marker(s@),
{
    let n = s.unicode_len();
    if n < 3 {
        return false;
    }
    let mut i: usize = 0;
    while i + 2 < n
        invariant
            n == s@.len(),
            i + 2 <= n,
            forall|j: int|
                0 <= j < i ==> !(#[trigger] s@[j] == '*' && s@[j + 1] == '*' && s@[j + 2] == 'Q'),
        decreases n - i,
    {
        if s.get_char(i) == '*' && s.get_char(i + 1) == '*' && s.get_char(i + 2) == 'Q' {
            return true;
        }
        i += 1;
    }
    false
}

/// The rewrite that marks a question as answered: every `**` in the
/// published text becomes `__`, turning bold spans into underlined ones.
pub open spec fn reveal_spec(s: Seq<char>) -> Seq<char>
    decreases s.len(),
{
    if s.len() >= 2 && s[0] == '*' && s[1] == '*' {
        seq!['_', '_'] + reveal_spec(s.skip(2))
    } else if s.len() >= 1 {
        seq![s[0]] + reveal_spec(s.skip(1))
    } else {
        Seq::<char>::empty()
    }
}

/// Rewrites a published question's text to show the round is over,
/// replacing each `**` with `__`.
pub fn reveal_answered(s: &str) -> (r: String)
    ensures
        r@ == reveal_spec(s@),
{
    let n = s.unicode_len();
    let mut out = String::new();
    let mut i: usize = 0;
    proof {
        assert(s@.skip(0) =~= s@);
        assert(out@ + reveal_spec(s@) =~= reveal_spec(s@));
    }
    while i < n
        invariant
            n == s@.len(),
            i <= n,
            out@ + reveal_spec(s@.skip(i as int)) == reveal_spec(s@),
        decreases n - i,
    {
        let ghost pending = s@.skip(i as int);
        if i + 1 < n && s.get_char(i) == '*' && s.get_char(i + 1) == '*' {
            out.append("__");
            proof {
                reveal_strlit("__");
                assert("__"@ =~= seq!['_', '_']);
                assert(pending[0] == s@[i as int]);
                assert(pending[1] == s@[i + 1]);
                assert(pending.skip(2) =~= s@.skip(i + 2));
                assert(reveal_spec(pending) == seq!['_', '_'] + reveal_spec(s@.skip(i + 2)));
            }
            i += 2;
        } else {
            let piece = s.substring_char(i, i + 1);
            out.append(piece);
            proof {
                assert(piece@ =~= seq![s@[i as int]]);
                assert(pending[0] == s@[i as int]);
                assert(pending.skip(1) =~= s@.skip(i + 1));
                if pending.len() >= 2 && pending[0] == '*' && pending[1] == '*' {
                    assert(s@[i + 1] == pending[1]);
                    assert(false);
                }
                assert(reveal_spec(pending) == seq![s@[i as int]] + reveal_spec(s@.skip(i + 1)));
            }
            i += 1;
        }
        proof {
            assert((out@ + reveal_spec(s@.skip(i as int))) =~= reveal_spec(s@));
        }
    }
    proof {
        assert(s@.skip(n as int) =~= Seq::<char>::empty());
        assert(out@ =~= out@ + reveal_spec(s@.skip(n as int)));
    }
    out
}

} // verus!
