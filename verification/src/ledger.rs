//! The point ledger: one score per (user, guild) pair, raised by one for
//! each correct answer, created at one on the first. It is the only mutable
//! shared state of the engine and every increment goes through it, so no
//! update can be lost. A guild's leaderboard is its entries sorted by score,
//! highest first, ties kept in first-seen order.

use vstd::prelude::*;

use crate::text::str_eq;

verus! {

/// One score row: how many correct answers `user_id` has given in
/// `guild_id`.
pub struct ScoreEntry {
    pub user_id: String,
    pub guild_id: String,
    pub score: u64,
}

/// Spec-level image of a score row.
#[verifier::ext_equal]
pub ghost struct EntryModel {
    pub user: Seq<char>,
    pub guild: Seq<char>,
    pub score: nat,
}

impl View for ScoreEntry {
    type V = EntryModel;

    open spec fn view(&self) -> EntryModel {
        EntryModel { user: self.user_id@, guild: self.guild_id@, score: self.score as nat }
    }
}

/// The images of a sequence of score rows.
pub open spec fn entry_models(s: Seq<ScoreEntry>) -> Seq<EntryModel> {
    s.map_values(|e: ScoreEntry| e@)
}

/// Whether a row belongs to the given (user, guild) key.
pub open spec fn key_is(e: EntryModel, user: Seq<char>, guild: Seq<char>) -> bool {
    e.user == user && e.guild == guild
}

/// Whether some row holds the given key.
pub open spec fn has_entry(s: Seq<EntryModel>, user: Seq<char>, guild: Seq<char>) -> bool {
    exists|i: int| 0 <= i < s.len() && key_is(#[trigger] s[i], user, guild)
}

/// The score the ledger holds for a key: the first matching row's score,
/// and zero when no row matches.
pub open spec fn score_of(s: Seq<EntryModel>, user: Seq<char>, guild: Seq<char>) -> nat
    decreases s.len(),
{
    if s.len() == 0 {
        0
    } else if key_is(s[0], user, guild) {
        s[0].score
    } else {
        score_of(s.drop_first(), user, guild)
    }
}

/// One recorded correct answer: the first row of the key gains one point;
/// a key without a row gains a fresh row with score one, appended at the
/// end so that first-seen order is kept.
pub open spec fn spec_increment(
    s: Seq<EntryModel>,
    user: Seq<char>,
    guild: Seq<char>,
) -> Seq<EntryModel>
    decreases s.len(),
{
    if s.len() == 0 {
        seq![EntryModel { user, guild, score: 1 }]
    } else if key_is(s[0], user, guild) {
        seq![EntryModel { user: s[0].user, guild: s[0].guild, score: s[0].score + 1 }]
            + s.drop_first()
    } else {
        seq![s[0]] + spec_increment(s.drop_first(), user, guild)
    }
}

/// At most one row per (user, guild) key.
pub open spec fn unique_keys(s: Seq<EntryModel>) -> bool {
    forall|i: int, j: int|
        0 <= i < j < s.len() ==> !(#[trigger] s[i].user == #[trigger] s[j].user && s[i].guild
            == s[j].guild)
}

/// Stored rows reduced to the ledger's invariant: of rows that share a
/// (user, guild) key only the first survives, and the given order is kept.
pub open spec fn dedup_keys(s: Seq<EntryModel>) -> Seq<EntryModel>
    decreases s.len(),
{
    if s.len() == 0 {
        s
    } else {
        let d = dedup_keys(s.drop_last());
        if has_entry(d, s.last().user, s.last().guild) {
            d
        } else {
            d.push(s.last())
        }
    }
}

/// The rows of one guild, in ledger (first-seen) order.
pub open spec fn guild_entries(s: Seq<EntryModel>, guild: Seq<char>) -> Seq<EntryModel> {
    s.filter(|e: EntryModel| e.guild == guild)
}

/// Sorted by score, highest first.
pub open spec fn sorted_desc(s: Seq<EntryModel>) -> bool {
    forall|i: int, j: int| 0 <= i < j < s.len() ==> #[trigger] s[i].score >= #[trigger] s[j].score
}

/// Stable descending insertion: the new row goes behind every row whose
/// score is at least as high, so equal scores keep their earlier order.
pub open spec fn insert_desc(e: EntryModel, s: Seq<EntryModel>) -> Seq<EntryModel>
    decreases s.len(),
{
    if s.len() > 0 && s[0].score >= e.score {
        seq![s[0]] + insert_desc(e, s.drop_first())
    } else {
        seq![e] + s
    }
}

/// Stable descending insertion sort.
pub open spec fn sort_desc(s: Seq<EntryModel>) -> Seq<EntryModel>
    decreases s.len(),
{
    if s.len() == 0 {
        s
    } else {
        insert_desc(s.last(), sort_desc(s.drop_last()))
    }
}

proof fn lemma_score_of_skip(s: Seq<EntryModel>, user: Seq<char>, guild: Seq<char>, i: int)
    requires
        0 <= i <= s.len(),
        forall|j: int| 0 <= j < i ==> !key_is(#[trigger] s[j], user, guild),
    ensures
        score_of(s, user, guild) == score_of(s.skip(i), user, guild),
    decreases i,
{
    if i > 0 {
        assert(s.drop_first() =~= s.skip(1));
        lemma_score_of_skip(s.skip(1), user, guild, i - 1);
        assert(s.skip(1).skip(i - 1) =~= s.skip(i));
    } else {
        assert(s.skip(0) =~= s);
    }
}

proof fn lemma_spec_increment_skip(s: Seq<EntryModel>, user: Seq<char>, guild: Seq<char>, i: int)
    requires
        0 <= i <= s.len(),
        forall|j: int| 0 <= j < i ==> !key_is(#[trigger] s[j], user, guild),
    ensures
        spec_increment(s, user, guild) == s.take(i) + spec_increment(s.skip(i), user, guild),
    decreases i,
{
    if i > 0 {
        assert(s.drop_first() =~= s.skip(1));
        lemma_spec_increment_skip(s.skip(1), user, guild, i - 1);
        assert(s.skip(1).take(i - 1) =~= s.take(i).drop_first());
        assert(s.skip(1).skip(i - 1) =~= s.skip(i));
        assert(seq![s[0]] + (s.take(i).drop_first() + spec_increment(s.skip(i), user, guild))
            =~= s.take(i) + spec_increment(s.skip(i), user, guild));
    } else {
        assert(s.skip(0) =~= s);
        assert(s.take(0) + spec_increment(s, user, guild) =~= spec_increment(s, user, guild));
    }
}

/// An increment raises exactly the incremented key's score, by one.
proof fn lemma_score_of_increment(s: Seq<EntryModel>, user: Seq<char>, guild: Seq<char>)
    ensures
        score_of(spec_increment(s, user, guild), user, guild) == score_of(s, user, guild) + 1,
    decreases s.len(),
{
    let out = spec_increment(s, user, guild);
    if s.len() == 0 {
        assert(key_is(out[0], user, guild));
    } else if key_is(s[0], user, guild) {
        assert(key_is(out[0], user, guild));
    } else {
        lemma_score_of_increment(s.drop_first(), user, guild);
        assert(out[0] == s[0]);
        assert(out.drop_first() =~= spec_increment(s.drop_first(), user, guild));
    }
}

/// How many correct answers in a row leave the ledger, spec-level.
pub open spec fn after_rounds(
    s: Seq<EntryModel>,
    user: Seq<char>,
    guild: Seq<char>,
    n: nat,
) -> Seq<EntryModel>
    decreases n,
{
    if n == 0 {
        s
    } else {
        spec_increment(after_rounds(s, user, guild, (n - 1) as nat), user, guild)
    }
}

/// No lost updates: a run of `n` correct answers by the same user in the
/// same guild leaves that key's score exactly `n` higher, whatever the
/// ledger held before and whatever other keys it holds.
pub proof fn lemma_no_lost_updates(s: Seq<EntryModel>, user: Seq<char>, guild: Seq<char>, n: nat)
    ensures
        score_of(after_rounds(s, user, guild, n), user, guild) == score_of(s, user, guild) + n,
    decreases n,
{
    if n > 0 {
        lemma_no_lost_updates(s, user, guild, (n - 1) as nat);
        lemma_score_of_increment(after_rounds(s, user, guild, (n - 1) as nat), user, guild);
    }
}

proof fn lemma_insert_desc_at(s: Seq<EntryModel>, e: EntryModel, pos: int)
    requires
        0 <= pos <= s.len(),
        forall|j: int| 0 <= j < pos ==> #[trigger] s[j].score >= e.score,
        pos == s.len() || s[pos].score < e.score,
    ensures
        insert_desc(e, s) == s.insert(pos, e),
    decreases pos,
{
    if pos > 0 {
        lemma_insert_desc_at(s.drop_first(), e, pos - 1);
        assert(seq![s[0]] + s.drop_first().insert(pos - 1, e) =~= s.insert(pos, e));
    } else {
        if s.len() == 0 || s[0].score < e.score {
            assert(seq![e] + s =~= s.insert(0, e));
        }
    }
}

proof fn lemma_insert_desc_sorted(s: Seq<EntryModel>, e: EntryModel)
    requires
        sorted_desc(s),
    ensures
        sorted_desc(insert_desc(e, s)),
        insert_desc(e, s).len() == s.len() + 1,
    decreases s.len(),
{
    let out = insert_desc(e, s);
    if s.len() > 0 && s[0].score >= e.score {
        assert(s.drop_first() =~= s.skip(1));
        lemma_insert_desc_sorted(s.drop_first(), e);
        let tail = insert_desc(e, s.drop_first());
        // Every element of the inserted tail is either `e` or a tail
        // element, so the head still dominates it.
        lemma_insert_desc_elements(s.drop_first(), e);
        assert forall|i: int, j: int| 0 <= i < j < out.len() implies out[i].score
            >= out[j].score by {
            if i > 0 {
                assert(out[i] == tail[i - 1] && out[j] == tail[j - 1]);
            } else {
                assert(out[j] == tail[j - 1]);
            }
        }
    } else {
        assert forall|i: int, j: int| 0 <= i < j < out.len() implies out[i].score
            >= out[j].score by {
            if i > 0 {
                assert(out[i] == s[i - 1] && out[j] == s[j - 1]);
            } else {
                assert(out[j] == s[j - 1]);
            }
        }
    }
}

/// Everything in an insertion's result is the inserted row or one of the
/// given rows.
proof fn lemma_insert_desc_elements(s: Seq<EntryModel>, e: EntryModel)
    ensures
        insert_desc(e, s).len() == s.len() + 1,
        forall|i: int| 0 <= i < insert_desc(e, s).len() ==>
            (#[trigger] insert_desc(e, s)[i] == e
                || exists|j: int| 0 <= j < s.len() && insert_desc(e, s)[i] == #[trigger] s[j]),
    decreases s.len(),
{
    let out = insert_desc(e, s);
    if s.len() > 0 && s[0].score >= e.score {
        lemma_insert_desc_elements(s.drop_first(), e);
        let tail = insert_desc(e, s.drop_first());
        assert forall|i: int| 0 <= i < out.len() implies (out[i] == e
            || exists|j: int| 0 <= j < s.len() && out[i] == #[trigger] s[j]) by {
            if i == 0 {
                assert(out[0] == s[0]);
            } else {
                assert(out[i] == tail[i - 1]);
                if tail[i - 1] != e {
                    let j = choose|j: int|
                        0 <= j < s.drop_first().len() && tail[i - 1] == s.drop_first()[j];
                    assert(out[i] == s[j + 1]);
                }
            }
        }
    }
}

/// Everything a sort returns is one of the rows it was given.
proof fn lemma_sort_desc_elements(s: Seq<EntryModel>)
    ensures
        sort_desc(s).len() == s.len(),
        forall|i: int| 0 <= i < sort_desc(s).len() ==>
            exists|j: int| 0 <= j < s.len() && #[trigger] sort_desc(s)[i] == #[trigger] s[j],
    decreases s.len(),
{
    if s.len() > 0 {
        lemma_sort_desc_elements(s.drop_last());
        lemma_insert_desc_elements(sort_desc(s.drop_last()), s.last());
        let prev = sort_desc(s.drop_last());
        let out = sort_desc(s);
        assert forall|i: int| 0 <= i < out.len() implies exists|j: int|
            0 <= j < s.len() && #[trigger] out[i] == #[trigger] s[j] by {
            if out[i] == s.last() {
                assert(out[i] == s[s.len() - 1]);
            } else {
                let k = choose|k: int| 0 <= k < prev.len() && out[i] == prev[k];
                let j = choose|j: int| 0 <= j < s.drop_last().len() && prev[k] == s.drop_last()[j];
                assert(out[i] == s[j]);
            }
        }
    }
}

/// A sort's output is sorted by score, highest first.
proof fn lemma_sort_desc_sorted(s: Seq<EntryModel>)
    ensures
        sorted_desc(sort_desc(s)),
    decreases s.len(),
{
    if s.len() > 0 {
        lemma_sort_desc_sorted(s.drop_last());
        lemma_insert_desc_sorted(sort_desc(s.drop_last()), s.last());
    }
}

fn duplicate_entry(e: &ScoreEntry) -> (r: ScoreEntry)
    ensures
        r@ == e@,
{
    ScoreEntry { user_id: e.user_id.clone(), guild_id: e.guild_id.clone(), score: e.score }
}

/// The ledger itself: all score rows, in first-seen order, at most one per
/// (user, guild) key. It is the single serialization point for rewards:
/// every correct answer goes through `increment`.
pub struct Ledger {
    entries: Vec<ScoreEntry>,
}

impl View for Ledger {
    type V = Seq<EntryModel>;

    closed spec fn view(&self) -> Seq<EntryModel> {
        entry_models(self.entries@)
    }
}

impl Ledger {
    /// At most one row per (user, guild) pair; constructors establish it
    /// and every method keeps it.
    pub open spec fn wf(&self) -> bool {
        unique_keys(self@)
    }

    /// An empty ledger.
    pub fn new() -> (l: Ledger)
        ensures
            l@ == Seq::<EntryModel>::empty(),
            l.wf(),
    {
        let l = Ledger { entries: Vec::new() };
        proof {
            assert(l@ =~= Seq::<EntryModel>::empty());
        }
        l
    }

    /// Rebuilds a ledger from stored rows: rows are kept in their given
    /// order, and of rows sharing a (user, guild) key only the first is
    /// kept, so the ledger's one-row-per-key invariant holds whatever the
    /// backing store delivered.
    pub fn from_entries(rows: Vec<ScoreEntry>) -> (l: Ledger)
        ensures
            l@ == dedup_keys(entry_models(rows@)),
            l.wf(),
    {
        let n = rows.len();
        let mut l = Ledger::new();
        let mut i: usize = 0;
        proof {
            assert(entry_models(rows@).take(0) =~= Seq::<EntryModel>::empty());
        }
        while i < n
            invariant
                n == rows@.len(),
                i <= n,
                l@ == dedup_keys(entry_models(rows@).take(i as int)),
                l.wf(),
            decreases n - i,
        {
            let ghost before = entry_models(rows@).take(i as int);
            let ghost after = entry_models(rows@).take(i + 1);
            proof {
                assert(after.drop_last() =~= before);
                assert(after.last() == entry_models(rows@)[i as int]);
                assert(entry_models(rows@)[i as int] == rows@[i as int]@);
            }
            let row = duplicate_entry(&rows[i]);
            if !l.has_key(row.user_id.as_str(), row.guild_id.as_str()) {
                let ghost prior = l@;
                l.entries.push(row);
                proof {
                    assert(l@ =~= prior.push(rows@[i as int]@));
                    assert forall|a: int, b: int| 0 <= a < b < l@.len() implies !(
                    #[trigger] l@[a].user == #[trigger] l@[b].user && l@[a].guild
                        == l@[b].guild) by {
                        if b < prior.len() {
                            assert(l@[a] == prior[a] && l@[b] == prior[b]);
                        } else {
                            assert(l@[a] == prior[a]);
                            assert(!key_is(prior[a], l@[b].user, l@[b].guild));
                        }
                    }
                }
            }
            i += 1;
        }
        proof {
            assert(entry_models(rows@).take(n as int) =~= entry_models(rows@));
        }
        l
    }

    /// Whether the ledger holds a row for the key.
    pub fn has_key(&self, user: &str, guild: &str) -> (b: bool)
        ensures
            b == has_entry(self@, user@, guild@),
    {
        let n = self.entries.len();
        let mut i: usize = 0;
        while i < n
            invariant
                n == self.entries@.len(),
                i <= n,
                forall|j: int| 0 <= j < i ==> !key_is(#[trigger] self@[j], user@, guild@),
            decreases n - i,
        {
            if str_eq(self.entries[i].user_id.as_str(), user) && str_eq(
                self.entries[i].guild_id.as_str(),
                guild,
            ) {
                proof {
                    assert(key_is(self@[i as int], user@, guild@));
                }
                return true;
            }
            i += 1;
        }
        false
    }

    /// How many rows the ledger holds.
    pub fn len(&self) -> (n: usize)
        ensures
            n == self@.len(),
    {
        self.entries.len()
    }

    /// The score a key holds now, zero if it has no row yet.
    pub fn score_of_key(&self, user: &str, guild: &str) -> (score: u64)
        ensures
            score as nat == score_of(self@, user@, guild@),
    {
        let n = self.entries.len();
        let mut i: usize = 0;
        while i < n
            invariant
                n == self.entries@.len(),
                i <= n,
                forall|j: int| 0 <= j < i ==> !key_is(#[trigger] self@[j], user@, guild@),
            decreases n - i,
        {
            if str_eq(self.entries[i].user_id.as_str(), user) && str_eq(
                self.entries[i].guild_id.as_str(),
                guild,
            ) {
                proof {
                    lemma_score_of_skip(self@, user@, guild@, i as int);
                    assert(self@.skip(i as int)[0] == self@[i as int]);
                }
                return self.entries[i].score;
            }
            i += 1;
        }
        proof {
            lemma_score_of_skip(self@, user@, guild@, n as int);
            assert(self@.skip(n as int) =~= Seq::<EntryModel>::empty());
        }
        0
    }

    /// Records one correct answer: the key's row gains a point, or is
    /// created with score one, appended behind the existing rows. Returns
    /// the resulting score. Nothing else in the ledger changes.
    pub fn increment(&mut self, user: &str, guild: &str) -> (new_score: u64)
        requires
            old(self).wf(),
            score_of(old(self)@, user@, guild@) < u64::MAX,
        ensures
            final(self)@ == spec_increment(old(self)@, user@, guild@),
            final(self).wf(),
            new_score as nat == score_of(old(self)@, user@, guild@) + 1,
    {
        let ghost orig = self@;
        let n = self.entries.len();
        let mut i: usize = 0;
        while i < n
            invariant
                self@ == orig,
                orig == old(self)@,
                self.entries@.len() == n,
                i <= n,
                unique_keys(orig),
                score_of(orig, user@, guild@) < u64::MAX,
                forall|j: int| 0 <= j < i ==> !key_is(#[trigger] orig[j], user@, guild@),
            decreases n - i,
        {
            if str_eq(self.entries[i].user_id.as_str(), user) && str_eq(
                self.entries[i].guild_id.as_str(),
                guild,
            ) {
                proof {
                    assert(self@[i as int] == self.entries@[i as int]@);
                    assert(key_is(orig[i as int], user@, guild@));
                    lemma_score_of_skip(orig, user@, guild@, i as int);
                    lemma_spec_increment_skip(orig, user@, guild@, i as int);
                    assert(orig.skip(i as int)[0] == orig[i as int]);
                    assert(score_of(orig, user@, guild@) == orig[i as int].score);
                }
                let bumped = self.entries[i].score + 1;
                let row = &mut self.entries[i];
                row.score = bumped;
                proof {
                    let rest = orig.skip(i as int);
                    assert(rest.drop_first() =~= orig.skip(i + 1));
                    assert(spec_increment(orig, user@, guild@) =~= orig.update(
                        i as int,
                        EntryModel {
                            user: orig[i as int].user,
                            guild: orig[i as int].guild,
                            score: orig[i as int].score + 1,
                        },
                    ));
                    assert(self@ =~= spec_increment(orig, user@, guild@));
                    assert forall|a: int, b: int| 0 <= a < b < self@.len() implies !(
                    #[trigger] self@[a].user == #[trigger] self@[b].user && self@[a].guild
                        == self@[b].guild) by {
                        assert(self@[a].user == orig[a].user && self@[a].guild == orig[a].guild);
                        assert(self@[b].user == orig[b].user && self@[b].guild == orig[b].guild);
                        assert(!(orig[a].user == orig[b].user && orig[a].guild == orig[b].guild));
                    }
                }
                return bumped;
            }
            i += 1;
        }
        proof {
            lemma_score_of_skip(orig, user@, guild@, n as int);
            lemma_spec_increment_skip(orig, user@, guild@, n as int);
            assert(orig.skip(n as int) =~= Seq::<EntryModel>::empty());
        }
        let fresh = ScoreEntry {
            user_id: String::from_str(user),
            guild_id: String::from_str(guild),
            score: 1,
        };
        proof {
            assert(orig.take(n as int) =~= orig);
        }
        self.entries.push(fresh);
        proof {
            assert(self@ =~= orig + spec_increment(Seq::<EntryModel>::empty(), user@, guild@));
            assert forall|a: int, b: int| 0 <= a < b < self@.len() implies !(#[trigger] self@[a].user
                == #[trigger] self@[b].user && self@[a].guild == self@[b].guild) by {
                if b < orig.len() {
                    assert(self@[a] == orig[a] && self@[b] == orig[b]);
                } else {
                    assert(self@[a] == orig[a]);
                    assert(key_is(self@[b], user@, guild@));
                }
            }
        }
        1
    }

    /// A guild's standings: exactly its rows, sorted by score, highest
    /// first, equal scores kept in first-seen order; rows of every other
    /// guild are left out. The caller formats the display text.
    pub fn leaderboard(&self, guild: &str) -> (r: Vec<ScoreEntry>)
        ensures
            entry_models(r@) == sort_desc(guild_entries(self@, guild@)),
            sorted_desc(entry_models(r@)),
            forall|i: int| 0 <= i < r@.len() ==> (#[trigger] r@[i])@.guild == guild@,
    {
        broadcast use vstd::seq_lib::group_filter_ensures;

        let ghost pred = |e: EntryModel| e.guild == guild@;
        let n = self.entries.len();

        // Gather this guild's rows, in ledger order.
        let mut picked: Vec<ScoreEntry> = Vec::new();
        let mut i: usize = 0;
        proof {
            assert(self@.take(0) =~= Seq::<EntryModel>::empty());
            assert(entry_models(picked@) =~= Seq::<EntryModel>::empty());
            reveal(Seq::filter);
        }
        while i < n
            invariant
                n == self.entries@.len(),
                i <= n,
                entry_models(picked@) == self@.take(i as int).filter(pred),
                pred == (|e: EntryModel| e.guild == guild@),
            decreases n - i,
        {
            let ghost before = self@.take(i as int);
            let ghost after = self@.take(i + 1);
            proof {
                assert(after.drop_last() =~= before);
                assert(after.last() == self@[i as int]);
                reveal(Seq::filter);
            }
            if str_eq(self.entries[i].guild_id.as_str(), guild) {
                let copy = duplicate_entry(&self.entries[i]);
                picked.push(copy);
                proof {
                    assert(pred(self@[i as int]));
                    assert(entry_models(picked@) =~= before.filter(pred).push(self@[i as int]));
                    assert(after.filter(pred) =~= before.filter(pred).push(after.last()));
                }
            } else {
                proof {
                    assert(!pred(self@[i as int]));
                    assert(after.filter(pred) =~= before.filter(pred));
                }
            }
            i += 1;
        }
        proof {
            assert(self@.take(n as int) =~= self@);
        }

        // Insertion sort, stable and descending by score.
        let m = picked.len();
        let mut sorted: Vec<ScoreEntry> = Vec::new();
        let mut k: usize = 0;
        proof {
            assert(entry_models(picked@).take(0) =~= Seq::<EntryModel>::empty());
            assert(entry_models(sorted@) =~= Seq::<EntryModel>::empty());
        }
        while k < m
            invariant
                m == picked@.len(),
                k <= m,
                entry_models(sorted@) == sort_desc(entry_models(picked@).take(k as int)),
                sorted_desc(entry_models(sorted@)),
                sorted@.len() == k,
            decreases m - k,
        {
            let e = duplicate_entry(&picked[k]);
            let score = e.score;
            let len = sorted.len();
            let mut pos: usize = 0;
            while pos < len && sorted[pos].score >= score
                invariant
                    len == sorted@.len(),
                    pos <= len,
                    forall|j: int|
                        0 <= j < pos ==> (#[trigger] entry_models(sorted@)[j]).score
                            >= score as nat,
                decreases len - pos,
            {
                proof {
                    assert(entry_models(sorted@)[pos as int] == sorted@[pos as int]@);
                }
                pos += 1;
            }
            let ghost prev = entry_models(sorted@);
            proof {
                if pos < len {
                    assert(entry_models(sorted@)[pos as int] == sorted@[pos as int]@);
                }
                lemma_insert_desc_at(prev, e@, pos as int);
                lemma_insert_desc_sorted(prev, e@);
            }
            sorted.insert(pos, e);
            proof {
                assert(entry_models(sorted@) =~= prev.insert(pos as int, e@));
                let taken = entry_models(picked@).take(k + 1);
                assert(taken.drop_last() =~= entry_models(picked@).take(k as int));
                assert(taken.last() == entry_models(picked@)[k as int]);
                assert(entry_models(picked@)[k as int] == picked@[k as int]@);
                assert(entry_models(sorted@) == sort_desc(taken));
            }
            k += 1;
        }
        proof {
            assert(entry_models(picked@).take(m as int) =~= entry_models(picked@));
            assert(entry_models(picked@) == guild_entries(self@, guild@));
            // Every returned row came out of the guild filter, so it
            // belongs to the guild.
            lemma_sort_desc_elements(guild_entries(self@, guild@));
            assert forall|j: int| 0 <= j < sorted@.len() implies (#[trigger] sorted@[j])@.guild
                == guild@ by {
                assert(entry_models(sorted@)[j] == sorted@[j]@);
            }
        }
        sorted
    }
}

} // verus!
