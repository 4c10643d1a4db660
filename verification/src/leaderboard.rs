//! The score table: for each game the ten best scores, best first.

use vstd::prelude::*;
use vstd::relations::total_ordering;
use vstd::seq_lib::{lemma_sorted_unique, to_multiset_build, to_multiset_insert};

verus! {

/// How many scores the table keeps for one game.
pub const MAX_SCORES: usize = 10;

/// The scores of one game.
#[derive(Debug, PartialEq)]
pub struct GameScores {
    /// The name of the game, as bytes of text.
    pub game: Vec<u8>,
    pub scores: Vec<u32>,
}

/// The scores of one game as mathematical values.
pub struct GameScoresView {
    pub game: Seq<u8>,
    pub scores: Seq<u32>,
}

impl View for GameScores {
    type V = GameScoresView;

    open spec fn view(&self) -> GameScoresView {
        GameScoresView { game: self.game@, scores: self.scores@ }
    }
}

/// The score table: one entry per game, in the order in which the games
/// first scored.
#[derive(Debug, PartialEq)]
pub struct Leaderboard {
    pub entries: Vec<GameScores>,
}

/// A score table as a mathematical value.
pub type TableView = Seq<GameScoresView>;

impl View for Leaderboard {
    type V = TableView;

    open spec fn view(&self) -> TableView {
        self.entries@.map_values(|e: GameScores| e@)
    }
}

/// The order of a score list: a score stands before every score that is not
/// higher.
pub open spec fn descending() -> spec_fn(u32, u32) -> bool {
    |a: u32, b: u32| a >= b
}

/// Whether no score in the list is followed by a higher one.
pub open spec fn is_descending(scores: Seq<u32>) -> bool {
    forall|i: int, j: int| 0 <= i < j < scores.len() ==> scores[i] >= scores[j]
}

/// The best scores of a list: the list sorted from high to low and cut after
/// the tenth score.
pub open spec fn top_scores(scores: Seq<u32>) -> Seq<u32> {
    let sorted = scores.sort_by(descending());
    if sorted.len() > MAX_SCORES {
        sorted.take(MAX_SCORES as int)
    } else {
        sorted
    }
}

/// The index of the first entry at index `from` or later that belongs to
/// `game`, or the length of the table if there is none.
pub open spec fn position_from(table: TableView, game: Seq<u8>, from: int) -> int
    decreases table.len() - from,
{
    if from < 0 || from >= table.len() {
        table.len() as int
    } else if table[from].game == game {
        from
    } else {
        position_from(table, game, from + 1)
    }
}

/// The index of the first entry that belongs to `game`, or the length of the
/// table if there is none.
pub open spec fn position_of(table: TableView, game: Seq<u8>) -> int {
    position_from(table, game, 0)
}

/// The scores that the table holds for `game`.
pub open spec fn scores_of(table: TableView, game: Seq<u8>) -> Option<Seq<u32>> {
    let at = position_of(table, game);
    if at < table.len() {
        Some(table[at].scores)
    } else {
        None
    }
}

/// The table with one more score at the end of the game's list; a game that
/// has no entry yet gets one at the end of the table.
pub open spec fn with_score(table: TableView, game: Seq<u8>, score: u32) -> TableView {
    let at = position_of(table, game);
    if at < table.len() {
        table.update(at, GameScoresView { game, scores: table[at].scores.push(score) })
    } else {
        table.push(GameScoresView { game, scores: seq![score] })
    }
}

/// The table with every list reduced to its best scores.
pub open spec fn trimmed(table: TableView) -> TableView {
    table.map_values(
        |e: GameScoresView| GameScoresView { game: e.game, scores: top_scores(e.scores) },
    )
}

/// The table after `game` has scored: the score joins the game's list, which
/// is then reduced to its best scores.
pub open spec fn recorded(table: TableView, game: Seq<u8>, score: u32) -> TableView {
    let at = position_of(table, game);
    if at < table.len() {
        table.update(at, GameScoresView { game, scores: top_scores(table[at].scores.push(score)) })
    } else {
        table.push(GameScoresView { game, scores: seq![score] })
    }
}

/// Whether the list is one that the table keeps: at least one and at most
/// ten scores, none followed by a higher one.
pub open spec fn scores_wf(scores: Seq<u32>) -> bool {
    &&& 1 <= scores.len() <= MAX_SCORES
    &&& is_descending(scores)
}

/// The invariant of the table: no game has two entries, and every list is
/// one that the table keeps.
pub open spec fn table_wf(table: TableView) -> bool {
    &&& forall|i: int, j: int| 0 <= i < j < table.len() ==> table[i].game != table[j].game
    &&& forall|i: int| 0 <= i < table.len() ==> scores_wf(#[trigger] table[i].scores)
}

/// Whether the table is one that reading builds up: no game has two entries,
/// and every entry has a score.
pub open spec fn table_distinct(table: TableView) -> bool {
    &&& forall|i: int, j: int| 0 <= i < j < table.len() ==> table[i].game != table[j].game
    &&& forall|i: int| 0 <= i < table.len() ==> (#[trigger] table[i]).scores.len() >= 1
}

/// From high to low is a total order.
pub proof fn lemma_descending_is_total()
    ensures
        total_ordering(descending()),
{
}

/// A list sorted from high to low is its own sorting.
pub proof fn lemma_sorting_is_unique(scores: Seq<u32>, sorted: Seq<u32>)
    requires
        is_descending(sorted),
        sorted.to_multiset() == scores.to_multiset(),
    ensures
        sorted == scores.sort_by(descending()),
{
    scores.lemma_sort_by_ensures(descending());
    lemma_sorted_unique(sorted, scores.sort_by(descending()), descending());
}

/// The best scores of any list form a list that the table keeps, provided
/// there is a score at all.
pub proof fn lemma_top_scores_wf(scores: Seq<u32>)
    ensures
        is_descending(top_scores(scores)),
        top_scores(scores).len() <= MAX_SCORES,
        top_scores(scores).len() == if scores.len() <= MAX_SCORES {
            scores.len()
        } else {
            MAX_SCORES as nat
        },
{
    scores.lemma_sort_by_ensures(descending());
    let sorted = scores.sort_by(descending());
    scores.to_multiset_ensures();
    sorted.to_multiset_ensures();
    assert(sorted.len() == scores.len());
    let top = top_scores(scores);
    assert forall|i: int, j: int| 0 <= i < j < top.len() implies top[i] >= top[j] by {
        assert(descending()(sorted[i], sorted[j]));
    }
}

/// The search for a game's entry finds the first entry of that name.
pub proof fn lemma_position_from(table: TableView, game: Seq<u8>, from: int)
    requires
        0 <= from <= table.len(),
    ensures
        from <= position_from(table, game, from) <= table.len(),
        position_from(table, game, from) < table.len() ==> table[position_from(
            table,
            game,
            from,
        )].game == game,
        forall|j: int| from <= j < position_from(table, game, from) ==> table[j].game != game,
    decreases table.len() - from,
{
    if from < table.len() && table[from].game != game {
        lemma_position_from(table, game, from + 1);
    }
}

/// Adding a score keeps the games of the table distinct and their lists
/// filled.
pub proof fn lemma_with_score_distinct(table: TableView, game: Seq<u8>, score: u32)
    requires
        table_distinct(table),
    ensures
        table_distinct(with_score(table, game, score)),
{
    lemma_position_from(table, game, 0);
}

/// Reducing the lists of such a table to their best scores establishes the
/// invariant of the table.
pub proof fn lemma_trimmed_wf(table: TableView)
    requires
        table_distinct(table),
    ensures
        table_wf(trimmed(table)),
{
    let after = trimmed(table);
    assert forall|i: int| 0 <= i < after.len() implies scores_wf(#[trigger] after[i].scores) by {
        lemma_top_scores_wf(table[i].scores);
    }
}

/// Recording a score keeps the invariant of the table.
pub proof fn lemma_recorded_wf(table: TableView, game: Seq<u8>, score: u32)
    requires
        table_wf(table),
    ensures
        table_wf(recorded(table, game, score)),
{
    let at = position_of(table, game);
    let after = recorded(table, game, score);
    lemma_position_from(table, game, 0);
    if at < table.len() {
        lemma_top_scores_wf(table[at].scores.push(score));
    } else {
        assert(scores_wf(seq![score]));
    }
    assert forall|i: int| 0 <= i < after.len() implies scores_wf(#[trigger] after[i].scores) by {
        if i != at {
            assert(after[i] == table[i]);
        }
    }
}

impl Leaderboard {
    /// A table without entries.
    pub fn new() -> (board: Leaderboard)
        ensures
            board@ == Seq::<GameScoresView>::empty(),
            table_wf(board@),
    {
        let board = Leaderboard { entries: Vec::new() };
        assert(board@ =~= Seq::<GameScoresView>::empty());
        board
    }

    /// Finds the entry of `game`: its index, or the number of entries if the
    /// game has none.
    pub fn position(&self, game: &[u8]) -> (at: usize)
        ensures
            at == position_of(self@, game@),
            at <= self.entries@.len(),
    {
        let mut i: usize = 0;
        while i < self.entries.len()
            invariant
                i <= self.entries.len(),
                position_from(self@, game@, i as int) == position_of(self@, game@),
            decreases self.entries.len() - i,
        {
            assert(self@[i as int] == self.entries@[i as int]@);
            if bytes_equal(self.entries[i].game.as_slice(), game) {
                return i;
            }
            i += 1;
        }
        i
    }

    /// The scores that the table holds for `game`, best first.
    pub fn scores_for(&self, game: &[u8]) -> (found: Option<&Vec<u32>>)
        ensures
            match found {
                Some(scores) => scores_of(self@, game@) == Some(scores@),
                None => scores_of(self@, game@).is_none(),
            },
    {
        let at = self.position(game);
        if at < self.entries.len() {
            assert(self@[at as int] == self.entries@[at as int]@);
            Some(&self.entries[at].scores)
        } else {
            None
        }
    }

    /// Adds a score at the end of the game's list, with a new entry for a
    /// game that has none.
    pub fn add(&mut self, game: &[u8], score: u32)
        ensures
            final(self)@ == with_score(old(self)@, game@, score),
    {
        let at = self.position(game);
        if at < self.entries.len() {
            assert(self@[at as int] == self.entries@[at as int]@);
            self.entries[at].scores.push(score);
            proof {
                let expected = with_score(old(self)@, game@, score);
                lemma_position_from(old(self)@, game@, 0);
                assert forall|j: int| 0 <= j < expected.len() implies self@[j] == expected[j] by {
                    assert(self@[j] == self.entries@[j]@);
                    assert(old(self)@[j] == old(self).entries@[j]@);
                }
                assert(self@ =~= expected);
            }
        } else {
            let mut scores: Vec<u32> = Vec::new();
            scores.push(score);
            let name = copy_bytes(game);
            self.entries.push(GameScores { game: name, scores });
            assert(self@ =~= with_score(old(self)@, game@, score));
        }
    }

    /// Reduces every list to its best scores.
    pub fn trim(&mut self)
        ensures
            final(self)@ == trimmed(old(self)@),
    {
        let mut i: usize = 0;
        while i < self.entries.len()
            invariant
                i <= self.entries.len(),
                self.entries@.len() == old(self).entries@.len(),
                forall|j: int| 0 <= j < i ==> #[trigger] self@[j] == trimmed(old(self)@)[j],
                forall|j: int|
                    i <= j < self.entries@.len() ==> #[trigger] self@[j] == old(self)@[j],
            decreases self.entries.len() - i,
        {
            let ghost before = self@;
            assert(self@[i as int] == self.entries@[i as int]@);
            keep_top_scores(&mut self.entries[i].scores);
            assert(self@[i as int] == self.entries@[i as int]@);
            assert forall|j: int| 0 <= j < self.entries@.len() && j != i implies #[trigger] self@[j]
                == before[j] by {
                assert(self@[j] == self.entries@[j]@);
            }
            i += 1;
        }
        assert(self@ =~= trimmed(old(self)@));
    }

    /// Records that `game` has scored: the score joins the game's list, and
    /// the list is reduced to its best scores.
    pub fn record(&mut self, game: &[u8], score: u32)
        ensures
            final(self)@ == recorded(old(self)@, game@, score),
            table_wf(old(self)@) ==> table_wf(final(self)@),
    {
        proof {
            if table_wf(self@) {
                lemma_recorded_wf(self@, game@, score);
            }
        }
        let at = self.position(game);
        if at < self.entries.len() {
            assert(self@[at as int] == self.entries@[at as int]@);
            self.entries[at].scores.push(score);
            keep_top_scores(&mut self.entries[at].scores);
            proof {
                let expected = recorded(old(self)@, game@, score);
                lemma_position_from(old(self)@, game@, 0);
                assert forall|j: int| 0 <= j < expected.len() implies self@[j] == expected[j] by {
                    assert(self@[j] == self.entries@[j]@);
                    assert(old(self)@[j] == old(self).entries@[j]@);
                }
                assert(self@ =~= expected);
            }
        } else {
            let mut scores: Vec<u32> = Vec::new();
            scores.push(score);
            let name = copy_bytes(game);
            self.entries.push(GameScores { game: name, scores });
            assert(self@ =~= recorded(old(self)@, game@, score));
        }
    }
}

/// Tells whether two byte strings are the same.
pub fn bytes_equal(a: &[u8], b: &[u8]) -> (same: bool)
    ensures
        same == (a@ == b@),
{
    if a.len() != b.len() {
        return false;
    }
    let mut i: usize = 0;
    while i < a.len()
        invariant
            i <= a.len(),
            a.len() == b.len(),
            forall|j: int| 0 <= j < i ==> a@[j] == b@[j],
        decreases a.len() - i,
    {
        if a[i] != b[i] {
            return false;
        }
        i += 1;
    }
    assert(a@ =~= b@);
    true
}

/// Copies a byte string.
pub fn copy_bytes(bytes: &[u8]) -> (copy: Vec<u8>)
    ensures
        copy@ == bytes@,
{
    let mut copy: Vec<u8> = Vec::new();
    let mut i: usize = 0;
    while i < bytes.len()
        invariant
            i <= bytes.len(),
            copy@ == bytes@.take(i as int),
        decreases bytes.len() - i,
    {
        copy.push(bytes[i]);
        assert(bytes@.take(i + 1) =~= bytes@.take(i as int).push(bytes@[i as int]));
        i += 1;
    }
    assert(bytes@.take(i as int) =~= bytes@);
    copy
}

/// Puts a score into a list sorted from high to low, behind the scores that
/// are not lower.
pub fn insert_descending(sorted: &mut Vec<u32>, score: u32)
    requires
        is_descending(old(sorted)@),
    ensures
        is_descending(final(sorted)@),
        final(sorted)@.to_multiset() == old(sorted)@.to_multiset().insert(score),
        final(sorted)@ == old(sorted)@.push(score).sort_by(descending()),
{
    let mut at: usize = 0;
    while at < sorted.len() && sorted[at] >= score
        invariant
            at <= sorted.len(),
            *sorted == *old(sorted),
            forall|j: int| 0 <= j < at ==> sorted@[j] >= score,
        decreases sorted.len() - at,
    {
        at += 1;
    }
    sorted.insert(at, score);
    proof {
        let before = old(sorted)@;
        to_multiset_insert(before, at as int, score);
        to_multiset_build(before, score);
        assert forall|i: int, j: int| 0 <= i < j < sorted@.len() implies sorted@[i]
            >= sorted@[j] by {
            if j < at {
                assert(sorted@[i] == before[i] && sorted@[j] == before[j]);
            } else if j == at {
                assert(sorted@[i] == before[i]);
            } else if i < at {
                assert(sorted@[i] == before[i] && sorted@[j] == before[j - 1]);
            } else if i == at {
                assert(sorted@[j] == before[j - 1]);
                assert(before[at as int] < score);
            } else {
                assert(sorted@[i] == before[i - 1] && sorted@[j] == before[j - 1]);
            }
        }
        lemma_sorting_is_unique(before.push(score), sorted@);
    }
}

/// Sorts a list of scores from high to low.
pub fn sort_descending(scores: &mut Vec<u32>)
    ensures
        final(scores)@ == old(scores)@.sort_by(descending()),
{
    let mut sorted: Vec<u32> = Vec::new();
    let mut i: usize = 0;
    assert(scores@.take(0) =~= Seq::<u32>::empty());
    while i < scores.len()
        invariant
            i <= scores.len(),
            *scores == *old(scores),
            is_descending(sorted@),
            sorted@.to_multiset() == scores@.take(i as int).to_multiset(),
        decreases scores.len() - i,
    {
        insert_descending(&mut sorted, scores[i]);
        proof {
            assert(scores@.take(i + 1) =~= scores@.take(i as int).push(scores@[i as int]));
            to_multiset_build(scores@.take(i as int), scores@[i as int]);
        }
        i += 1;
    }
    proof {
        assert(scores@.take(i as int) =~= scores@);
        lemma_sorting_is_unique(scores@, sorted@);
    }
    *scores = sorted;
}

/// Reduces a list to its best scores: sorted from high to low, cut after the
/// tenth.
pub fn keep_top_scores(scores: &mut Vec<u32>)
    ensures
        final(scores)@ == top_scores(old(scores)@),
{
    sort_descending(scores);
    scores.truncate(MAX_SCORES);
}

} // verus!
