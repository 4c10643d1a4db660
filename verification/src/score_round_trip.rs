//! What is written to the score file reads back as the same table.

use crate::leaderboard::{
    is_descending,
    lemma_position_from,
    lemma_recorded_wf,
    lemma_sorting_is_unique,
    position_from,
    position_of,
    recorded,
    scores_wf,
    table_distinct,
    table_wf,
    top_scores,
    trimmed,
    with_score,
    GameScoresView,
    TableView,
    MAX_SCORES,
};
use crate::score_file::{
    absorbed,
    all_digits,
    collected,
    decimal,
    digits_value,
    entry_lines,
    find_separator,
    is_digit,
    lemma_find_separator,
    lemma_line_end_bounds,
    lemma_parsed_wf,
    line_at,
    line_end,
    next_line,
    parse_line,
    parse_number,
    parsed,
    record_line,
    rendered,
    separator,
    separator_at,
    DIGIT_ZERO,
    LINE_FEED,
    SEPARATOR_LEN,
};
use vstd::prelude::*;

verus! {

/// Whether a name can stand in the score file: it has no line feed, and no
/// separator begins inside it, not even one that runs on into the separator
/// behind the name.
pub open spec fn plain_name(name: Seq<u8>) -> bool {
    &&& forall|i: int| 0 <= i < name.len() ==> name[i] != LINE_FEED
    &&& forall|at: int| 0 <= at < name.len() ==> !separator_at(name + separator(), at)
}

/// Whether every game of the table has a name that can stand in the score
/// file.
pub open spec fn plain_names(table: TableView) -> bool {
    forall|i: int| 0 <= i < table.len() ==> plain_name(#[trigger] table[i].game)
}

/// The table after all scores of a list were added to a game, in order.
pub open spec fn with_scores(table: TableView, game: Seq<u8>, scores: Seq<u32>) -> TableView
    decreases scores.len(),
{
    if scores.len() == 0 {
        table
    } else {
        with_score(with_scores(table, game, scores.drop_last()), game, scores.last())
    }
}

/// The table after all entries of another table were added to it, in order.
pub open spec fn with_entries(table: TableView, added: TableView) -> TableView
    decreases added.len(),
{
    if added.len() == 0 {
        table
    } else {
        with_scores(with_entries(table, added.drop_last()), added.last().game, added.last().scores)
    }
}

/// The digits of a number are digits, at least one, and write the number.
pub proof fn lemma_decimal_reads_back(n: nat)
    ensures
        decimal(n).len() >= 1,
        all_digits(decimal(n)),
        digits_value(decimal(n)) == n,
    decreases n,
{
    if n < 10 {
        assert(decimal(n).drop_last() =~= Seq::<u8>::empty());
        assert(digits_value(decimal(n).drop_last()) == 0);
    } else {
        lemma_decimal_reads_back(n / 10);
        let head = decimal(n / 10);
        let digit = (DIGIT_ZERO + n % 10) as u8;
        assert(decimal(n).drop_last() =~= head);
        assert(decimal(n).last() == digit);
        assert forall|i: int| 0 <= i < decimal(n).len() implies is_digit(
            #[trigger] decimal(n)[i],
        ) by {
            if i < head.len() {
                assert(decimal(n)[i] == head[i]);
            }
        }
    }
}

/// The digits of a score read back as the score.
pub proof fn lemma_score_reads_back(score: u32)
    ensures
        parse_number(decimal(score as nat)) == Some(score),
{
    lemma_decimal_reads_back(score as nat);
    assert(is_digit(decimal(score as nat)[0]));
}

/// The line feed that ends a line is the first one from the start of the
/// line.
pub proof fn lemma_line_end_is(text: Seq<u8>, from: int, end: int)
    requires
        0 <= from <= end <= text.len(),
        forall|i: int| from <= i < end ==> text[i] != LINE_FEED,
        end < text.len() ==> text[end] == LINE_FEED,
    ensures
        line_end(text, from) == end,
    decreases end - from,
{
    if from < end {
        lemma_line_end_is(text, from + 1, end);
    }
}

/// The first separator of a line is where no separator stands before it.
pub proof fn lemma_find_separator_is(line: Seq<u8>, from: int, at: int)
    requires
        0 <= from <= at,
        separator_at(line, at),
        forall|k: int| from <= k < at ==> !separator_at(line, k),
    ensures
        find_separator(line, from) == at,
    decreases at - from,
{
    if from < at {
        lemma_find_separator_is(line, from + 1, at);
    }
}

/// Text in front of a text moves its lines without changing them.
pub proof fn lemma_line_shift(front: Seq<u8>, text: Seq<u8>, from: int)
    requires
        0 <= from <= text.len(),
    ensures
        line_end(front + text, front.len() + from) == front.len() + line_end(text, from),
        line_at(front + text, front.len() + from) == line_at(text, from),
        next_line(front + text, front.len() + from) == front.len() + next_line(text, from),
{
    let whole = front + text;
    let end = line_end(text, from);
    lemma_line_end_bounds(text, from);
    lemma_line_end_at_feed(text, from);
    assert forall|i: int| front.len() + from <= i < front.len() + end implies whole[i]
        != LINE_FEED by {
        assert(whole[i] == text[i - front.len()]);
    }
    if end < text.len() {
        assert(whole[front.len() + end] == text[end]);
    }
    lemma_line_end_is(whole, front.len() + from, front.len() + end);
    if from < end {
        assert(whole[front.len() + end - 1] == text[end - 1]);
    }
    assert(whole.subrange(front.len() + from, front.len() + end) =~= text.subrange(from, end));
    if from < end {
        assert(whole.subrange(front.len() + from, front.len() + end - 1) =~= text.subrange(
            from,
            end - 1,
        ));
    }
}

/// The search for the end of a line stops at a line feed or at the end of
/// the text, and passes no line feed.
pub proof fn lemma_line_end_at_feed(text: Seq<u8>, from: int)
    requires
        0 <= from <= text.len(),
    ensures
        line_end(text, from) < text.len() ==> text[line_end(text, from)] == LINE_FEED,
        forall|i: int| from <= i < line_end(text, from) ==> text[i] != LINE_FEED,
    decreases text.len() - from,
{
    if from < text.len() && text[from] != LINE_FEED {
        lemma_line_end_at_feed(text, from + 1);
    }
}

/// Text in front of a text does not change what is read from the text.
pub proof fn lemma_collected_shift(table: TableView, front: Seq<u8>, text: Seq<u8>, from: int)
    requires
        0 <= from <= text.len(),
    ensures
        collected(table, front + text, front.len() + from) == collected(table, text, from),
    decreases text.len() - from,
{
    if from < text.len() {
        lemma_line_shift(front, text, from);
        lemma_line_end_bounds(text, from);
        lemma_collected_shift(
            absorbed(table, line_at(text, from)),
            front,
            text,
            next_line(text, from),
        );
    }
}

/// The line that records a score holds that record.
pub proof fn lemma_record_line_parses(game: Seq<u8>, score: u32)
    requires
        plain_name(game),
    ensures
        parse_line(game + separator() + decimal(score as nat)) == Some((game, score)),
{
    let line = game + separator() + decimal(score as nat);
    let at = game.len() as int;
    assert(line.subrange(at, at + SEPARATOR_LEN) =~= separator());
    assert forall|k: int| 0 <= k < at implies !separator_at(line, k) by {
        if separator_at(line, k) {
            assert((game + separator()).subrange(k, k + SEPARATOR_LEN) =~= line.subrange(
                k,
                k + SEPARATOR_LEN,
            ));
            assert(separator_at(game + separator(), k));
        }
    }
    lemma_find_separator_is(line, 0, at);
    assert(line.skip(at + SEPARATOR_LEN) =~= decimal(score as nat));
    assert(line.take(at) =~= game);
    lemma_score_reads_back(score);
}

/// Reading a text that begins with the line of a record adds the record and
/// goes on with the rest.
pub proof fn lemma_collected_record(table: TableView, game: Seq<u8>, score: u32, rest: Seq<u8>)
    requires
        plain_name(game),
    ensures
        collected(table, record_line(game, score) + rest, 0) == collected(
            with_score(table, game, score),
            rest,
            0,
        ),
{
    let line = game + separator() + decimal(score as nat);
    let front = record_line(game, score);
    let text = front + rest;
    lemma_decimal_reads_back(score as nat);
    assert(front =~= line + seq![LINE_FEED]);
    assert forall|i: int| 0 <= i < line.len() implies text[i] != LINE_FEED by {
        if i < game.len() {
            assert(text[i] == game[i]);
        } else if i < game.len() + SEPARATOR_LEN {
            assert(text[i] == separator()[i - game.len()]);
        } else {
            assert(text[i] == decimal(score as nat)[i - game.len() - SEPARATOR_LEN]);
            assert(is_digit(decimal(score as nat)[i - game.len() - SEPARATOR_LEN]));
        }
    }
    assert(text[line.len() as int] == LINE_FEED);
    lemma_line_end_is(text, 0, line.len() as int);
    let last = decimal(score as nat)[decimal(score as nat).len() - 1];
    assert(is_digit(last));
    assert(text[line.len() - 1] == last);
    assert(text.subrange(0, line.len() as int) =~= line);
    assert(line_at(text, 0) == line);
    lemma_record_line_parses(game, score);
    assert(next_line(text, 0) == front.len());
    lemma_collected_shift(with_score(table, game, score), front, rest, 0);
}

/// Reading a text that begins with the lines of an entry adds the scores of
/// the entry and goes on with the rest.
pub proof fn lemma_collected_entry(
    table: TableView,
    game: Seq<u8>,
    scores: Seq<u32>,
    rest: Seq<u8>,
)
    requires
        plain_name(game),
    ensures
        collected(table, entry_lines(game, scores) + rest, 0) == collected(
            with_scores(table, game, scores),
            rest,
            0,
        ),
    decreases scores.len(),
{
    if scores.len() == 0 {
        assert(entry_lines(game, scores) + rest =~= rest);
    } else {
        let init = scores.drop_last();
        let tail = record_line(game, scores.last()) + rest;
        assert(entry_lines(game, scores) + rest =~= entry_lines(game, init) + tail);
        lemma_collected_entry(table, game, init, tail);
        lemma_collected_record(with_scores(table, game, init), game, scores.last(), rest);
    }
}

/// Reading a text that begins with a written table adds the entries of that
/// table and goes on with the rest.
pub proof fn lemma_collected_rendered(table: TableView, added: TableView, rest: Seq<u8>)
    requires
        plain_names(added),
    ensures
        collected(table, rendered(added) + rest, 0) == collected(
            with_entries(table, added),
            rest,
            0,
        ),
    decreases added.len(),
{
    if added.len() == 0 {
        assert(rendered(added) + rest =~= rest);
    } else {
        let init = added.drop_last();
        let last = added.last();
        let tail = entry_lines(last.game, last.scores) + rest;
        assert(rendered(added) + rest =~= rendered(init) + tail);
        assert(plain_names(init)) by {
            assert forall|i: int| 0 <= i < init.len() implies plain_name(
                #[trigger] init[i].game,
            ) by {
                assert(init[i] == added[i]);
            }
        }
        lemma_collected_rendered(table, init, tail);
        lemma_collected_entry(with_entries(table, init), last.game, last.scores, rest);
    }
}

/// A game that the table does not know is looked for in vain.
pub proof fn lemma_position_of_stranger(table: TableView, game: Seq<u8>, from: int)
    requires
        0 <= from <= table.len(),
        forall|i: int| 0 <= i < table.len() ==> table[i].game != game,
    ensures
        position_from(table, game, from) == table.len(),
    decreases table.len() - from,
{
    if from < table.len() {
        lemma_position_of_stranger(table, game, from + 1);
    }
}

/// Adding a filled list of scores to a game that the table does not know
/// adds the entry of that game at the end.
pub proof fn lemma_with_scores_of_stranger(table: TableView, game: Seq<u8>, scores: Seq<u32>)
    requires
        scores.len() >= 1,
        forall|i: int| 0 <= i < table.len() ==> table[i].game != game,
    ensures
        with_scores(table, game, scores) == table.push(GameScoresView { game, scores }),
    decreases scores.len(),
{
    let init = scores.drop_last();
    if init.len() == 0 {
        assert(with_scores(table, game, init) == table);
        lemma_position_of_stranger(table, game, 0);
        assert(seq![scores.last()] =~= scores);
    } else {
        lemma_with_scores_of_stranger(table, game, init);
        let before = table.push(GameScoresView { game, scores: init });
        assert forall|j: int| 0 <= j < table.len() implies before[j].game != game by {
            assert(before[j] == table[j]);
        }
        lemma_position_from(before, game, 0);
        let at = position_of(before, game);
        if at < table.len() {
            assert(before[at] == table[at]);
        }
        assert(before[table.len() as int].game == game);
        assert(at == table.len());
        assert(init.push(scores.last()) =~= scores);
        assert(with_score(before, game, scores.last()) =~= table.push(
            GameScoresView { game, scores },
        ));
    }
}

/// Adding the entries of a table with distinct games and filled lists to the
/// empty table gives that table.
pub proof fn lemma_with_entries_rebuilds(table: TableView)
    requires
        table_distinct(table),
    ensures
        with_entries(Seq::empty(), table) == table,
    decreases table.len(),
{
    if table.len() == 0 {
        assert(table =~= Seq::<GameScoresView>::empty());
    } else {
        let init = table.drop_last();
        let last = table.last();
        assert(table_distinct(init)) by {
            assert forall|i: int| 0 <= i < init.len() implies (#[trigger] init[i]).scores.len()
                >= 1 by {
                assert(init[i] == table[i]);
            }
        }
        lemma_with_entries_rebuilds(init);
        assert forall|i: int| 0 <= i < init.len() implies init[i].game != last.game by {
            assert(init[i] == table[i]);
        }
        lemma_with_scores_of_stranger(init, last.game, last.scores);
        assert(init.push(GameScoresView { game: last.game, scores: last.scores }) =~= table);
    }
}

/// A list that the table keeps is its own best scores.
pub proof fn lemma_top_scores_of_kept(scores: Seq<u32>)
    requires
        is_descending(scores),
        scores.len() <= MAX_SCORES,
    ensures
        top_scores(scores) == scores,
{
    lemma_sorting_is_unique(scores, scores);
}

/// A table that satisfies the invariant is its own trimming.
pub proof fn lemma_trimmed_of_kept(table: TableView)
    requires
        table_wf(table),
    ensures
        trimmed(table) == table,
{
    assert forall|i: int| 0 <= i < table.len() implies trimmed(table)[i] == table[i] by {
        assert(scores_wf(table[i].scores));
        lemma_top_scores_of_kept(table[i].scores);
    }
    assert(trimmed(table) =~= table);
}

/// A table that is written to the score file and read again is the same
/// table, provided it satisfies the invariant and its names can stand in the
/// file.
pub proof fn lemma_rendered_parses_back(table: TableView)
    requires
        table_wf(table),
        plain_names(table),
    ensures
        parsed(rendered(table)) == table,
{
    let empty = Seq::<u8>::empty();
    assert(rendered(table) + empty =~= rendered(table));
    lemma_collected_rendered(Seq::empty(), table, empty);
    lemma_with_entries_rebuilds(table);
    lemma_trimmed_of_kept(table);
}

/// The name that a record line holds can stand in the score file.
pub proof fn lemma_parsed_name_is_plain(line: Seq<u8>)
    requires
        forall|i: int| 0 <= i < line.len() ==> line[i] != LINE_FEED,
        parse_line(line).is_some(),
    ensures
        plain_name(parse_line(line).unwrap().0),
{
    let at = find_separator(line, 0);
    let name = line.take(at);
    lemma_find_separator(line, 0);
    assert forall|k: int| 0 <= k < name.len() implies !separator_at(name + separator(), k) by {
        if separator_at(name + separator(), k) {
            assert(line.subrange(at, at + SEPARATOR_LEN) == separator());
            let in_line = line.subrange(k, k + SEPARATOR_LEN);
            let in_name = (name + separator()).subrange(k, k + SEPARATOR_LEN);
            assert forall|j: int| 0 <= j < SEPARATOR_LEN implies #[trigger] in_line[j]
                == in_name[j] by {
                if k + j >= at {
                    assert(line.subrange(at, at + SEPARATOR_LEN)[k + j - at] == line[k + j]);
                }
            }
            assert(in_line =~= in_name);
            assert(separator_at(line, k));
        }
    }
}

/// Adding a score for a game whose name can stand in the score file keeps all
/// names such.
pub proof fn lemma_with_score_plain(table: TableView, game: Seq<u8>, score: u32)
    requires
        plain_names(table),
        plain_name(game),
    ensures
        plain_names(with_score(table, game, score)),
        plain_names(recorded(table, game, score)),
{
    lemma_position_from(table, game, 0);
    let added = with_score(table, game, score);
    assert forall|i: int| 0 <= i < added.len() implies plain_name(#[trigger] added[i].game) by {
        if i < table.len() && i != position_of(table, game) {
            assert(added[i] == table[i]);
        }
    }
    let noted = recorded(table, game, score);
    assert forall|i: int| 0 <= i < noted.len() implies plain_name(#[trigger] noted[i].game) by {
        if i < table.len() && i != position_of(table, game) {
            assert(noted[i] == table[i]);
        }
    }
}

/// Reading lines into a table keeps the names such that they can stand in
/// the score file.
pub proof fn lemma_collected_plain(table: TableView, text: Seq<u8>, from: int)
    requires
        plain_names(table),
    ensures
        plain_names(collected(table, text, from)),
    decreases text.len() - from,
{
    if 0 <= from < text.len() {
        lemma_line_end_bounds(text, from);
        lemma_line_end_at_feed(text, from);
        let line = line_at(text, from);
        if parse_line(line).is_some() {
            assert forall|i: int| 0 <= i < line.len() implies line[i] != LINE_FEED by {
                assert(line[i] == text[from + i]);
            }
            lemma_parsed_name_is_plain(line);
            let (game, score) = parse_line(line).unwrap();
            lemma_with_score_plain(table, game, score);
        }
        lemma_collected_plain(absorbed(table, line), text, next_line(text, from));
    }
}

/// Whatever the text, the names of the table read from it can stand in the
/// score file.
pub proof fn lemma_parsed_plain(text: Seq<u8>)
    ensures
        plain_names(parsed(text)),
{
    lemma_collected_plain(Seq::empty(), text, 0);
    let raw = collected(Seq::empty(), text, 0);
    assert forall|i: int| 0 <= i < trimmed(raw).len() implies plain_name(
        #[trigger] trimmed(raw)[i].game,
    ) by {
        assert(trimmed(raw)[i].game == raw[i].game);
    }
}

/// The text that saving a score computes reads back as the old table with the
/// score recorded, provided the name of the game can stand in the score file.
pub proof fn lemma_saved_score_loads_back(content: Seq<u8>, game: Seq<u8>, score: u32)
    requires
        plain_name(game),
    ensures
        parsed(rendered(recorded(parsed(content), game, score))) == recorded(
            parsed(content),
            game,
            score,
        ),
{
    lemma_parsed_wf(content);
    lemma_parsed_plain(content);
    lemma_recorded_wf(parsed(content), game, score);
    lemma_with_score_plain(parsed(content), game, score);
    lemma_rendered_parses_back(recorded(parsed(content), game, score));
}

} // verus!
