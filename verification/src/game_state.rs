use vstd::prelude::*;

use crate::order::{
    entry_view, lemma_ranks_before_total, ranks_before, sort_entries, views,
};

verus! {

broadcast use vstd::seq_lib::group_to_multiset_ensures;

/// The count recorded for a word, absent words counting as zero.
pub open spec fn frequency_of(m: Map<Seq<char>, nat>, w: Seq<char>) -> nat {
    if m.contains_key(w) {
        m[w]
    } else {
        0
    }
}

/// Word counts after counting each of `words` once more.
pub open spec fn frequencies_after(m: Map<Seq<char>, nat>, words: Seq<Seq<char>>) -> Map<
    Seq<char>,
    nat,
> {
    Map::new(
        |w: Seq<char>| m.contains_key(w) || words.to_multiset().count(w) > 0,
        |w: Seq<char>| frequency_of(m, w) + words.to_multiset().count(w),
    )
}

/// The word counts that a list of (word, count) entries holds.
pub open spec fn entries_map(v: Seq<(String, u32)>) -> Map<Seq<char>, nat>
    decreases v.len(),
{
    if v.len() == 0 {
        Map::empty()
    } else {
        entries_map(v.drop_last()).insert(v.last().0@, v.last().1 as nat)
    }
}

/// No word occurs twice among the entries.
pub open spec fn distinct_words(v: Seq<(String, u32)>) -> bool {
    forall|i: int, j: int| 0 <= i < j < v.len() ==> (#[trigger] v[i]).0@ != (#[trigger] v[j]).0@
}

/// With distinct words, the map holds exactly the entries' words, each with its count.
pub proof fn lemma_entries_map(v: Seq<(String, u32)>)
    requires
        distinct_words(v),
    ensures
        forall|i: int| 0 <= i < v.len() ==> #[trigger] entries_map(v).contains_key(v[i].0@)
            && entries_map(v)[v[i].0@] == v[i].1 as nat,
        forall|w: Seq<char>| #[trigger]
            entries_map(v).contains_key(w) ==> exists|i: int| 0 <= i < v.len() && v[i].0@ == w,
        entries_map(v).dom().finite(),
        entries_map(v).dom().len() == v.len(),
    decreases v.len(),
{
    if v.len() > 0 {
        let p = v.drop_last();
        assert(distinct_words(p)) by {
            assert forall|i: int, j: int| 0 <= i < j < p.len() implies (#[trigger] p[i]).0@ != (
            #[trigger] p[j]).0@ by {
                assert(p[i] == v[i] && p[j] == v[j]);
            }
        }
        lemma_entries_map(p);
        let last = v.last();
        assert(!entries_map(p).contains_key(last.0@)) by {
            if entries_map(p).contains_key(last.0@) {
                let i = choose|i: int| 0 <= i < p.len() && p[i].0@ == last.0@;
                assert(v[i] == p[i]);
                assert(v[v.len() - 1] == last);
            }
        }
        assert forall|i: int| 0 <= i < v.len() implies #[trigger] entries_map(v).contains_key(
            v[i].0@,
        ) && entries_map(v)[v[i].0@] == v[i].1 as nat by {
            if i < v.len() - 1 {
                assert(v[i] == p[i]);
                assert(v[i].0@ != last.0@) by {
                    assert(v[v.len() - 1] == last);
                }
            }
        }
        assert forall|w: Seq<char>| #[trigger]
            entries_map(v).contains_key(w) implies exists|i: int| 0 <= i < v.len() && v[i].0@ == w by {
            if w == last.0@ {
                assert(v[v.len() - 1].0@ == w);
            } else {
                let i = choose|i: int| 0 <= i < p.len() && p[i].0@ == w;
                assert(v[i] == p[i]);
            }
        }
    }
}

/// Replacing the count of one entry changes only that word's count.
pub proof fn lemma_entries_map_update(before: Seq<(String, u32)>, j: int, entry: (String, u32))
    requires
        distinct_words(before),
        0 <= j < before.len(),
        entry.0@ == before[j].0@,
    ensures
        distinct_words(before.update(j, entry)),
        entries_map(before.update(j, entry)) == entries_map(before).insert(
            entry.0@,
            entry.1 as nat,
        ),
{
    let after = before.update(j, entry);
    assert forall|a: int, b: int| 0 <= a < b < after.len() implies (#[trigger] after[a]).0@ != (
    #[trigger] after[b]).0@ by {
        assert(before[a].0@ != before[b].0@);
    }
    lemma_entries_map(before);
    lemma_entries_map(after);
    let lhs = entries_map(after);
    let rhs = entries_map(before).insert(entry.0@, entry.1 as nat);
    assert forall|w: Seq<char>| lhs.contains_key(w) <==> rhs.contains_key(w) by {
        if lhs.contains_key(w) {
            let i = choose|i: int| 0 <= i < after.len() && after[i].0@ == w;
            if i != j {
                assert(before[i] == after[i]);
            }
        }
        if rhs.contains_key(w) && w != entry.0@ {
            let i = choose|i: int| 0 <= i < before.len() && before[i].0@ == w;
            assert(before[i] == after[i]);
        }
        if w == entry.0@ {
            assert(after[j] == entry);
        }
    }
    assert forall|w: Seq<char>| lhs.contains_key(w) implies lhs[w] == rhs[w] by {
        let i = choose|i: int| 0 <= i < after.len() && after[i].0@ == w;
        if i != j {
            assert(before[i] == after[i]);
            assert(w != entry.0@);
        } else {
            assert(after[j] == entry);
        }
    }
    assert(lhs =~= rhs);
}

/// Counting one more word raises only that word's count, by one.
pub proof fn lemma_frequencies_push(m: Map<Seq<char>, nat>, ws: Seq<Seq<char>>, w: Seq<char>)
    ensures
        frequencies_after(m, ws.push(w)) == frequencies_after(m, ws).insert(
            w,
            frequency_of(frequencies_after(m, ws), w) + 1,
        ),
{
    assert(ws.push(w).to_multiset() =~= ws.to_multiset().insert(w));
    assert(frequencies_after(m, ws.push(w)) =~= frequencies_after(m, ws).insert(
        w,
        frequency_of(frequencies_after(m, ws), w) + 1,
    ));
}

/// A word's count in a prefix that stops before one of its places is below its full count.
pub proof fn lemma_prefix_count(ws: Seq<Seq<char>>, i: int, w: Seq<char>)
    requires
        0 <= i < ws.len(),
        ws[i] == w,
    ensures
        ws.take(i).to_multiset().count(w) < ws.to_multiset().count(w),
{
    assert(ws.take(i + 1) == ws.take(i).push(w));
    lemma_take_count_monotone(ws, i + 1, ws.len() as int, w);
    assert(ws.take(ws.len() as int) == ws);
}

proof fn lemma_take_count_monotone(ws: Seq<Seq<char>>, n: int, m: int, w: Seq<char>)
    requires
        0 <= n <= m <= ws.len(),
    ensures
        ws.take(n).to_multiset().count(w) <= ws.take(m).to_multiset().count(w),
    decreases m - n,
{
    if n < m {
        lemma_take_count_monotone(ws, n, m - 1, w);
        assert(ws.take(m) == ws.take(m - 1).push(ws[m - 1]));
    }
}

/// A reordering of entries with distinct words has distinct words, and holds
/// exactly the same entries.
pub proof fn lemma_permutation_keeps_entries(v: Seq<(String, u32)>, s: Seq<(String, u32)>)
    requires
        distinct_words(v),
        s.to_multiset() == v.to_multiset(),
    ensures
        distinct_words(s),
        s.len() == v.len(),
        forall|i: int| 0 <= i < s.len() ==> v.contains(#[trigger] s[i]),
        forall|t: int| 0 <= t < v.len() ==> s.contains(#[trigger] v[t]),
{
    assert(v.no_duplicates()) by {
        assert forall|i: int, j: int| 0 <= i < v.len() && 0 <= j < v.len() && i != j implies v[i]
            != v[j] by {
            if i < j {
                assert(v[i].0@ != v[j].0@);
            } else {
                assert(v[j].0@ != v[i].0@);
            }
        }
    }
    v.lemma_multiset_has_no_duplicates();
    s.lemma_multiset_has_no_duplicates_conv();
    vstd::seq_lib::to_multiset_len(s);
    vstd::seq_lib::to_multiset_len(v);
    assert forall|i: int| 0 <= i < s.len() implies v.contains(#[trigger] s[i]) by {
        assert(s.to_multiset().count(s[i]) > 0);
    }
    assert forall|t: int| 0 <= t < v.len() implies s.contains(#[trigger] v[t]) by {
        assert(v.to_multiset().count(v[t]) > 0);
    }
    assert forall|i: int, j: int| 0 <= i < j < s.len() implies (#[trigger] s[i]).0@ != (
    #[trigger] s[j]).0@ by {
        assert(v.contains(s[i]));
        assert(v.contains(s[j]));
        let a = choose|a: int| 0 <= a < v.len() && v[a] == s[i];
        let b = choose|b: int| 0 <= b < v.len() && v[b] == s[j];
        assert(s[i] != s[j]);
        if a < b {
            assert(v[a].0@ != v[b].0@);
        } else if b < a {
            assert(v[b].0@ != v[a].0@);
        }
    }
}

/// One finished game as kept in the saved state: the answer and the guesses in order.
pub struct GameRecord {
    pub answer: String,
    pub guesses: Vec<String>,
}

/// The saved state: how many rounds were played and the record of each game.
pub struct GameState {
    pub total_rounds: u32,
    pub games: Vec<GameRecord>,
}

impl Default for GameRecord {
    fn default() -> (r: Self)
        ensures
            r.answer@ == Seq::<char>::empty(),
            r.guesses@ == Seq::<String>::empty(),
    {
        GameRecord { answer: String::new(), guesses: Vec::new() }
    }
}

impl Default for GameState {
    fn default() -> (s: Self)
        ensures
            s.total_rounds == 0,
            s.games@ == Seq::<GameRecord>::empty(),
    {
        GameState { total_rounds: 0, games: Vec::new() }
    }
}

/// A recorded game was won when its last guess is the answer.
pub open spec fn record_won(r: GameRecord) -> bool {
    r.guesses@.len() > 0 && r.guesses@.last()@ == r.answer@
}

/// The attempts a record counts: its number of guesses, as a `u32`.
pub open spec fn record_attempts(r: GameRecord) -> nat {
    (r.guesses@.len() as u32) as nat
}

/// Number of won games among the records.
pub open spec fn wins_in(rs: Seq<GameRecord>) -> nat
    decreases rs.len(),
{
    if rs.len() == 0 {
        0
    } else {
        wins_in(rs.drop_last()) + if record_won(rs.last()) {
            1nat
        } else {
            0nat
        }
    }
}

/// Total attempts over the won games among the records.
pub open spec fn winning_attempts_in(rs: Seq<GameRecord>) -> nat
    decreases rs.len(),
{
    if rs.len() == 0 {
        0
    } else {
        winning_attempts_in(rs.drop_last()) + if record_won(rs.last()) {
            record_attempts(rs.last())
        } else {
            0nat
        }
    }
}

/// All guesses of the records, in order.
pub open spec fn guesses_in(rs: Seq<GameRecord>) -> Seq<Seq<char>>
    decreases rs.len(),
{
    if rs.len() == 0 {
        Seq::empty()
    } else {
        guesses_in(rs.drop_last()) + views(rs.last().guesses@)
    }
}

/// How one more record changes the totals: a record whose last guess is its
/// answer adds one win and its number of guesses to the winning attempts,
/// whatever that number is; any other record adds neither. Its guesses are
/// appended to all guesses.
pub proof fn lemma_records_push(rs: Seq<GameRecord>, r: GameRecord)
    ensures
        wins_in(rs.push(r)) == wins_in(rs) + if r.guesses@.len() > 0 && r.guesses@.last()@
            == r.answer@ {
            1nat
        } else {
            0nat
        },
        winning_attempts_in(rs.push(r)) == winning_attempts_in(rs) + if r.guesses@.len() > 0
            && r.guesses@.last()@ == r.answer@ {
            (r.guesses@.len() as u32) as nat
        } else {
            0nat
        },
        guesses_in(rs.push(r)) == guesses_in(rs) + r.guesses@.map_values(|w: String| w@),
{
    assert(rs.push(r).drop_last() == rs);
}

/// Every game counts as won when every record ends with its answer, and as
/// lost when none does.
pub proof fn lemma_wins_in_extremes(rs: Seq<GameRecord>)
    ensures
        (forall|i: int|
            0 <= i < rs.len() ==> (#[trigger] rs[i]).guesses@.len() > 0 && rs[i].guesses@.last()@
                == rs[i].answer@) ==> wins_in(rs) == rs.len(),
        (forall|i: int|
            0 <= i < rs.len() ==> !((#[trigger] rs[i]).guesses@.len() > 0 && rs[i].guesses@.last()@
                == rs[i].answer@)) ==> wins_in(rs) == 0,
    decreases rs.len(),
{
    if rs.len() > 0 {
        let p = rs.drop_last();
        assert(p.push(rs.last()) == rs);
        lemma_records_push(p, rs.last());
        assert forall|i: int| 0 <= i < p.len() implies #[trigger] p[i] == rs[i] by {}
        lemma_wins_in_extremes(p);
    }
}

proof fn lemma_records_prefix(rs: Seq<GameRecord>, i: int, w: Seq<char>)
    requires
        0 <= i <= rs.len(),
    ensures
        wins_in(rs.take(i)) <= wins_in(rs),
        wins_in(rs) <= rs.len(),
        winning_attempts_in(rs.take(i)) <= winning_attempts_in(rs),
        guesses_in(rs.take(i)).to_multiset().count(w) <= guesses_in(rs).to_multiset().count(w),
    decreases rs.len(),
{
    broadcast use vstd::seq_lib::lemma_multiset_commutative;

    if rs.len() > 0 {
        if i == rs.len() {
            assert(rs.take(i) == rs);
            lemma_records_prefix(rs.drop_last(), 0, w);
        } else {
            assert(rs.take(i) == rs.drop_last().take(i));
            lemma_records_prefix(rs.drop_last(), i, w);
        }
    }
}

/// Running totals over the games played, and how often each word was guessed.
#[derive(Debug)]
pub struct GameStats {
    total_games: u32,
    wins: u32,
    losses: u32,
    total_attempts: u32,
    word_frequency: Vec<(String, u32)>,
}

impl GameStats {
    /// Number of games played.
    pub closed spec fn games_played(&self) -> nat {
        self.total_games as nat
    }

    /// Number of games won.
    pub closed spec fn games_won(&self) -> nat {
        self.wins as nat
    }

    /// Number of games lost.
    pub closed spec fn games_lost(&self) -> nat {
        self.losses as nat
    }

    /// Total number of attempts over the games won.
    pub closed spec fn winning_attempts(&self) -> nat {
        self.total_attempts as nat
    }

    /// How often each word was guessed.
    pub closed spec fn frequencies(&self) -> Map<Seq<char>, nat> {
        entries_map(self.word_frequency@)
    }

    /// The statistics are well formed: each word is counted in one place.
    pub closed spec fn wf(&self) -> bool {
        &&& distinct_words(self.word_frequency@)
        &&& self.total_games == self.wins + self.losses
        &&& forall|i: int| 0 <= i < self.word_frequency@.len() ==> (#[trigger] self.word_frequency@[i]).1 >= 1
    }

    /// Number of games played.
    pub fn total_games(&self) -> (n: u32)
        ensures
            n == self.games_played(),
    {
        self.total_games
    }

    /// Number of games won.
    pub fn wins(&self) -> (n: u32)
        ensures
            n == self.games_won(),
    {
        self.wins
    }

    /// Number of games lost.
    pub fn losses(&self) -> (n: u32)
        ensures
            n == self.games_lost(),
    {
        self.losses
    }

    /// Total attempts over the games won.
    pub fn total_attempts(&self) -> (n: u32)
        ensures
            n == self.winning_attempts(),
    {
        self.total_attempts
    }

    /// Consistent statistics: every game played is either won or lost, and
    /// every word on record was guessed at least once. `new` gives such
    /// statistics and `add_game` keeps them so (both ensure `wf`).
    pub proof fn lemma_stats_consistent(&self)
        requires
            self.wf(),
        ensures
            self.games_played() == self.games_won() + self.games_lost(),
            forall|w: Seq<char>| #[trigger] self.frequencies().contains_key(w) ==> self.frequencies()[w] >= 1,
    {
        lemma_entries_map(self.word_frequency@);
        assert forall|w: Seq<char>| #[trigger] self.frequencies().contains_key(w) implies self.frequencies()[w] >= 1 by {
            let i = choose|i: int| 0 <= i < self.word_frequency@.len() && self.word_frequency@[i].0@ == w;
            assert(self.word_frequency@[i].1 >= 1);
        }
    }

    /// Empty statistics.
    pub fn new() -> (s: Self)
        ensures
            s.wf(),
            s.games_played() == 0,
            s.games_won() == 0,
            s.games_lost() == 0,
            s.winning_attempts() == 0,
            s.frequencies() == Map::<Seq<char>, nat>::empty(),
    {
        GameStats {
            total_games: 0,
            wins: 0,
            losses: 0,
            total_attempts: 0,
            word_frequency: Vec::new(),
        }
    }

    /// Records a game: a win adds its attempts to the total, and every guessed
    /// word is counted once more for each time it was guessed.
    pub fn add_game(&mut self, won: bool, attempts: u32, words_used: &[String])
        requires
            old(self).wf(),
            old(self).games_played() < u32::MAX,
            won ==> old(self).games_won() < u32::MAX,
            won ==> old(self).winning_attempts() + attempts <= u32::MAX,
            !won ==> old(self).games_lost() < u32::MAX,
            forall|w: Seq<char>|
                frequency_of(old(self).frequencies(), w) + (#[trigger] views(
                    words_used@,
                ).to_multiset().count(w)) <= u32::MAX,
        ensures
            final(self).wf(),
            final(self).games_played() == old(self).games_played() + 1,
            final(self).games_won() == old(self).games_won() + if won {
                1nat
            } else {
                0nat
            },
            final(self).games_lost() == old(self).games_lost() + if won {
                0nat
            } else {
                1nat
            },
            final(self).winning_attempts() == old(self).winning_attempts() + if won {
                attempts as nat
            } else {
                0nat
            },
            final(self).frequencies() == frequencies_after(
                old(self).frequencies(),
                views(words_used@),
            ),
    {
        self.total_games = self.total_games + 1;
        if won {
            self.wins = self.wins + 1;
            self.total_attempts = self.total_attempts + attempts;
        } else {
            self.losses = self.losses + 1;
        }
        let ghost m0 = entries_map(self.word_frequency@);
        let ghost totals = (self.total_games, self.wins, self.losses, self.total_attempts);
        let ghost ws = views(words_used@);
        let n = words_used.len();
        for i in 0..n
            invariant
                n == words_used@.len(),
                ws == views(words_used@),
                distinct_words(self.word_frequency@),
                self.total_games == self.wins + self.losses,
                forall|t: int|
                    0 <= t < self.word_frequency@.len() ==> (#[trigger] self.word_frequency@[t]).1
                        >= 1,
                (self.total_games, self.wins, self.losses, self.total_attempts) == totals,
                entries_map(self.word_frequency@) == frequencies_after(m0, ws.take(i as int)),
                forall|w: Seq<char>|
                    frequency_of(m0, w) + (#[trigger] ws.to_multiset().count(w)) <= u32::MAX,
        {
            let word = &words_used[i];
            let ghost before = self.word_frequency@;
            proof {
                lemma_entries_map(before);
                lemma_frequencies_push(m0, ws.take(i as int), word@);
                assert(ws[i as int] == word@);
                assert(ws.take(i + 1) == ws.take(i as int).push(word@));
                assert(ws.take(i as int).to_multiset().count(word@) < ws.to_multiset().count(word@))
                    by {
                    lemma_prefix_count(ws, i as int, word@);
                }
            }
            let len = self.word_frequency.len();
            let mut found = false;
            let mut j: usize = 0;
            while j < len
                invariant
                    len == self.word_frequency@.len(),
                    self.word_frequency@ == before,
                    j <= len,
                    !found ==> forall|t: int| 0 <= t < j ==> before[t].0@ != word@,
                    found ==> j < len && before[j as int].0@ == word@,
                ensures
                    !found ==> j == len,
                    !found ==> forall|t: int| 0 <= t < len ==> before[t].0@ != word@,
                    found ==> j < len && before[j as int].0@ == word@,
                decreases len - j + if found { 0int } else { 1int },
            {
                if self.word_frequency[j].0 == *word {
                    found = true;
                    break;
                }
                j = j + 1;
            }
            if found {
                let c = self.word_frequency[j].1;
                let w = self.word_frequency[j].0.clone();
                assert(c as nat == frequency_of(frequencies_after(m0, ws.take(i as int)), word@));
                let ghost entry = (w, (c + 1) as u32);
                self.word_frequency.set(j, (w, c + 1));
                proof {
                    lemma_entries_map_update(before, j as int, entry);
                    assert(self.word_frequency@ == before.update(j as int, entry));
                }
            } else {
                let copy = word.clone();
                let ghost entry = (copy, 1u32);
                self.word_frequency.push((copy, 1));
                proof {
                    assert(copy@ == word@);
                    assert(self.word_frequency@ == before.push(entry));
                    assert(self.word_frequency@.drop_last() == before);
                    assert(!entries_map(before).contains_key(word@));
                    assert forall|a: int, b: int|
                        0 <= a < b < self.word_frequency@.len() implies (
                    #[trigger] self.word_frequency@[a]).0@ != (
                    #[trigger] self.word_frequency@[b]).0@ by {
                        assert(self.word_frequency@[a] == before[a]);
                        if b < before.len() {
                            assert(self.word_frequency@[b] == before[b]);
                        } else {
                            assert(self.word_frequency@[b] == entry);
                        }
                    }
                }
            }
            assert(entries_map(self.word_frequency@) =~= frequencies_after(
                m0,
                ws.take(i + 1),
            ));
        }
        assert(ws.take(n as int) == ws);
    }

    /// The `count` most guessed words with their counts, most guessed first
    /// and ties in dictionary order; fewer when fewer words were guessed.
    pub fn top_words(&self, count: usize) -> (top: Vec<(String, u32)>)
        requires
            self.wf(),
        ensures
            top@.len() == if count <= self.frequencies().dom().len() {
                count as nat
            } else {
                self.frequencies().dom().len()
            },
            forall|i: int|
                0 <= i < top@.len() ==> #[trigger] self.frequencies().contains_key(top@[i].0@)
                    && self.frequencies()[top@[i].0@] == top@[i].1 as nat,
            forall|i: int, j: int|
                0 <= i < j < top@.len() ==> ranks_before(
                    entry_view(#[trigger] top@[i]),
                    entry_view(#[trigger] top@[j]),
                ),
            forall|w: Seq<char>, i: int|
                #![trigger self.frequencies().contains_key(w), top@[i]]
                self.frequencies().contains_key(w) && 0 <= i < top@.len() && (forall|j: int|
                    0 <= j < top@.len() ==> (#[trigger] top@[j]).0@ != w) ==> ranks_before(
                    entry_view(top@[i]),
                    (w, self.frequencies()[w]),
                ),
    {
        let sorted = sort_entries(&self.word_frequency);
        let ghost v = self.word_frequency@;
        proof {
            lemma_entries_map(v);
            lemma_permutation_keeps_entries(v, sorted@);
        }
        let m = if count <= sorted.len() {
            count
        } else {
            sorted.len()
        };
        let mut top: Vec<(String, u32)> = Vec::new();
        for i in 0..m
            invariant
                m <= sorted@.len(),
                top@.len() == i,
                forall|j: int| 0 <= j < i ==> #[trigger] top@[j] == sorted@[j],
        {
            top.push((sorted[i].0.clone(), sorted[i].1));
        }
        proof {
            let s = sorted@;
            assert forall|i: int| 0 <= i < top@.len() implies #[trigger] entries_map(v).contains_key(
                top@[i].0@,
            ) && entries_map(v)[top@[i].0@] == top@[i].1 as nat by {
                assert(top@[i] == s[i]);
                assert(v.contains(s[i]));
                let t = choose|t: int| 0 <= t < v.len() && v[t] == s[i];
                assert(entries_map(v).contains_key(v[t].0@));
            }
            assert forall|i: int, j: int| 0 <= i < j < top@.len() implies ranks_before(
                entry_view(#[trigger] top@[i]),
                entry_view(#[trigger] top@[j]),
            ) by {
                assert(top@[i] == s[i] && top@[j] == s[j]);
                lemma_ranks_before_total(entry_view(s[i]), entry_view(s[j]));
            }
            assert forall|w: Seq<char>, i: int|
                #![trigger entries_map(v).contains_key(w), top@[i]]
                entries_map(v).contains_key(w) && 0 <= i < top@.len() && (forall|j: int|
                    0 <= j < top@.len() ==> (#[trigger] top@[j]).0@ != w) implies ranks_before(
                entry_view(top@[i]),
                (w, entries_map(v)[w]),
            ) by {
                let t = choose|t: int| 0 <= t < v.len() && v[t].0@ == w;
                assert(s.contains(v[t]));
                let p = choose|p: int| 0 <= p < s.len() && s[p] == v[t];
                if p < m {
                    assert(top@[p] == s[p]);
                    assert(top@[p].0@ != w);
                }
                assert(top@[i] == s[i]);
                assert(top@[i].0@ != w);
                lemma_ranks_before_total(entry_view(s[i]), entry_view(s[p]));
                assert(entry_view(s[p]) == (w, entries_map(v)[w]));
            }
        }
        top
    }
}

/// Statistics over recorded games: each record counts as a game, won when its
/// last guess is the answer, with its number of guesses as its attempts.
pub fn stats_from_records(games: &[GameRecord]) -> (stats: GameStats)
    requires
        games@.len() <= u32::MAX,
        winning_attempts_in(games@) <= u32::MAX,
        forall|w: Seq<char>| #[trigger] guesses_in(games@).to_multiset().count(w) <= u32::MAX,
    ensures
        stats.wf(),
        stats.games_played() == games@.len(),
        stats.games_won() == wins_in(games@),
        stats.games_lost() == games@.len() - wins_in(games@),
        stats.winning_attempts() == winning_attempts_in(games@),
        stats.frequencies() == frequencies_after(Map::empty(), guesses_in(games@)),
        (forall|i: int|
            0 <= i < games@.len() ==> (#[trigger] games@[i]).guesses@.len() > 0
                && games@[i].guesses@.last()@ == games@[i].answer@) ==> stats.games_won()
            == games@.len() && stats.games_lost() == 0,
        (forall|i: int|
            0 <= i < games@.len() ==> !((#[trigger] games@[i]).guesses@.len() > 0
                && games@[i].guesses@.last()@ == games@[i].answer@)) ==> stats.games_won() == 0
            && stats.games_lost() == games@.len(),
{
    proof {
        lemma_wins_in_extremes(games@);
    }
    broadcast use vstd::seq_lib::lemma_multiset_commutative;

    let mut stats = GameStats::new();
    let n = games.len();
    proof {
        lemma_records_prefix(games@, 0, Seq::empty());
        assert(games@.take(0) =~= Seq::<GameRecord>::empty());
        assert(frequencies_after(Map::empty(), Seq::empty()) =~= Map::<Seq<char>, nat>::empty());
    }
    for i in 0..n
        invariant
            n == games@.len(),
            n <= u32::MAX,
            winning_attempts_in(games@) <= u32::MAX,
            forall|w: Seq<char>| #[trigger] guesses_in(games@).to_multiset().count(w) <= u32::MAX,
            stats.wf(),
            stats.games_played() == i,
            stats.games_won() == wins_in(games@.take(i as int)),
            stats.games_lost() == i - wins_in(games@.take(i as int)),
            stats.winning_attempts() == winning_attempts_in(games@.take(i as int)),
            stats.frequencies() == frequencies_after(Map::empty(), guesses_in(games@.take(i as int))),
    {
        let record = &games[i];
        let gl = record.guesses.len();
        let won = gl > 0 && record.guesses[gl - 1] == record.answer;
        let attempts = gl as u32;
        let ghost pre = games@.take(i as int);
        let ghost post = games@.take(i + 1);
        proof {
            assert(post.drop_last() == pre);
            assert(post.last() == *record);
            lemma_records_prefix(games@, i + 1, Seq::empty());
            assert forall|w: Seq<char>|
                frequency_of(stats.frequencies(), w) + (#[trigger] views(
                    record.guesses@,
                ).to_multiset().count(w)) <= u32::MAX by {
                lemma_records_prefix(games@, i + 1, w);
                assert(guesses_in(post) == guesses_in(pre) + views(record.guesses@));
                vstd::seq_lib::lemma_multiset_commutative(guesses_in(pre), views(record.guesses@));
                assert(frequency_of(stats.frequencies(), w) == guesses_in(pre).to_multiset().count(w));
            }
        }
        stats.add_game(won, attempts, record.guesses.as_slice());
        proof {
            assert(guesses_in(post) == guesses_in(pre) + views(record.guesses@));
            vstd::seq_lib::lemma_multiset_commutative(guesses_in(pre), views(record.guesses@));
            assert(frequencies_after(
                frequencies_after(Map::empty(), guesses_in(pre)),
                views(record.guesses@),
            ) =~= frequencies_after(Map::empty(), guesses_in(post)));
        }
    }
    assert(games@.take(n as int) == games@);
    stats
}

/// One entry as text: the word, a space, and its count.
pub open spec fn entry_text(e: (String, u32)) -> Seq<char> {
    e.0@ + seq![' '] + crate::text::decimal(e.1 as nat)
}

/// The entries as text, separated by single spaces.
pub open spec fn entries_text(es: Seq<(String, u32)>) -> Seq<char>
    decreases es.len(),
{
    if es.len() == 0 {
        Seq::empty()
    } else if es.len() == 1 {
        entry_text(es[0])
    } else {
        entries_text(es.drop_last()) + seq![' '] + entry_text(es.last())
    }
}

/// The entries as one line: each word followed by its count, separated by spaces.
pub fn format_top_words(entries: &Vec<(String, u32)>) -> (line: String)
    ensures
        line@ == entries_text(entries@),
{
    let mut line = String::new();
    let n = entries.len();
    for i in 0..n
        invariant
            n == entries@.len(),
            line@ == entries_text(entries@.take(i as int)),
    {
        let ghost before = line@;
        if i > 0 {
            crate::text::push_char(&mut line, ' ');
        }
        line.append(entries[i].0.as_str());
        crate::text::push_char(&mut line, ' ');
        let count = crate::text::decimal_string(entries[i].1 as usize);
        line.append(count.as_str());
        proof {
            let t = entries@.take(i + 1);
            assert(t.drop_last() =~= entries@.take(i as int));
            assert(t.last() == entries@[i as int]);
            if i == 0 {
                assert(line@ =~= entry_text(entries@[0]));
            } else {
                assert(line@ =~= before + seq![' '] + entry_text(entries@[i as int]));
            }
        }
    }
    assert(entries@.take(n as int) == entries@);
    line
}

} // verus!
