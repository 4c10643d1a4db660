//! The text form of the score table.
//!
//! The file holds one record per line: the name of the game, the separator
//! ` | Score: ` and the score in decimal digits. Lines end with a line feed,
//! which a carriage return may precede; the last line may go without. Lines
//! that are no record are passed over.

use crate::leaderboard::{
    lemma_trimmed_wf,
    lemma_with_score_distinct,
    recorded,
    table_distinct,
    table_wf,
    trimmed,
    with_score,
    GameScoresView,
    Leaderboard,
    TableView,
};
use vstd::prelude::*;

verus! {

/// The line feed that ends a line.
pub const LINE_FEED: u8 = 10;

/// The carriage return that may stand before the line feed.
pub const CARRIAGE_RETURN: u8 = 13;

/// The plus sign that may stand before the digits of a score.
pub const PLUS_SIGN: u8 = 43;

/// The digit zero; the other digits follow it.
pub const DIGIT_ZERO: u8 = 48;

/// Length of the separator.
pub const SEPARATOR_LEN: usize = 10;

/// The text ` | Score: ` between the name of the game and the score.
pub const SEPARATOR: [u8; 10] = [32, 124, 32, 83, 99, 111, 114, 101, 58, 32];

/// The separator as a sequence of bytes.
pub open spec fn separator() -> Seq<u8> {
    SEPARATOR@
}

/// Whether the byte is a decimal digit.
pub open spec fn is_digit(byte: u8) -> bool {
    DIGIT_ZERO <= byte <= DIGIT_ZERO + 9
}

/// Whether the text consists of decimal digits only.
pub open spec fn all_digits(text: Seq<u8>) -> bool {
    forall|i: int| 0 <= i < text.len() ==> is_digit(#[trigger] text[i])
}

/// The number that a text of decimal digits writes.
pub open spec fn digits_value(digits: Seq<u8>) -> nat
    decreases digits.len(),
{
    if digits.len() == 0 {
        0
    } else {
        (digits_value(digits.drop_last()) * 10 + (digits.last() - DIGIT_ZERO)) as nat
    }
}

/// The digits of a score text: the text without the plus sign that may lead
/// it.
pub open spec fn unsigned_part(text: Seq<u8>) -> Seq<u8> {
    if text.len() > 0 && text[0] == PLUS_SIGN {
        text.skip(1)
    } else {
        text
    }
}

/// The score that a text writes: one or more decimal digits, a plus sign
/// before them allowed, and a value that a `u32` holds.
pub open spec fn parse_number(text: Seq<u8>) -> Option<u32> {
    let digits = unsigned_part(text);
    if digits.len() > 0 && all_digits(digits) && digits_value(digits) <= u32::MAX {
        Some(digits_value(digits) as u32)
    } else {
        None
    }
}

/// The decimal digits of a number, without leading zeros.
pub open spec fn decimal(n: nat) -> Seq<u8>
    decreases n,
{
    if n < 10 {
        seq![(DIGIT_ZERO + n) as u8]
    } else {
        decimal(n / 10).push((DIGIT_ZERO + n % 10) as u8)
    }
}

/// Whether the separator stands in the line at index `at`.
pub open spec fn separator_at(line: Seq<u8>, at: int) -> bool {
    &&& 0 <= at
    &&& at + SEPARATOR_LEN <= line.len()
    &&& line.subrange(at, at + SEPARATOR_LEN) == separator()
}

/// The index of the first separator in the line at index `from` or later, or
/// the length of the line if there is none.
pub open spec fn find_separator(line: Seq<u8>, from: int) -> int
    decreases line.len() - from,
{
    if from < 0 || from + SEPARATOR_LEN > line.len() {
        line.len() as int
    } else if separator_at(line, from) {
        from
    } else {
        find_separator(line, from + 1)
    }
}

/// The record that a line holds: the text before the first separator is the
/// name of the game, and all the text behind that separator must write the
/// score. A line with a second separator therefore holds no record.
pub open spec fn parse_line(line: Seq<u8>) -> Option<(Seq<u8>, u32)> {
    let at = find_separator(line, 0);
    if at >= line.len() {
        None
    } else {
        match parse_number(line.skip(at + SEPARATOR_LEN)) {
            Some(score) => Some((line.take(at), score)),
            None => None,
        }
    }
}

/// The index of the first line feed at index `from` or later, or the length
/// of the text if there is none.
pub open spec fn line_end(text: Seq<u8>, from: int) -> int
    decreases text.len() - from,
{
    if from < 0 || from >= text.len() {
        text.len() as int
    } else if text[from] == LINE_FEED {
        from
    } else {
        line_end(text, from + 1)
    }
}

/// The line that starts at index `from`, without the line feed that ends it
/// and without a carriage return right before that line feed.
pub open spec fn line_at(text: Seq<u8>, from: int) -> Seq<u8> {
    let end = line_end(text, from);
    if end < text.len() && from < end && text[end - 1] == CARRIAGE_RETURN {
        text.subrange(from, end - 1)
    } else {
        text.subrange(from, end)
    }
}

/// Where the line after the one at index `from` starts.
pub open spec fn next_line(text: Seq<u8>, from: int) -> int {
    let end = line_end(text, from);
    if end < text.len() {
        end + 1
    } else {
        end
    }
}

/// The table after a line was read: a record adds its score to its game, any
/// other line changes nothing.
pub open spec fn absorbed(table: TableView, line: Seq<u8>) -> TableView {
    match parse_line(line) {
        Some((game, score)) => with_score(table, game, score),
        None => table,
    }
}

/// The table after the lines from index `from` on were read into `table`.
pub open spec fn collected(table: TableView, text: Seq<u8>, from: int) -> TableView
    decreases text.len() - from,
{
    if from < 0 || from >= text.len() {
        table
    } else {
        proof {
            lemma_line_end_bounds(text, from);
        }
        collected(absorbed(table, line_at(text, from)), text, next_line(text, from))
    }
}

/// The table that a text holds: every record adds its score to its game, in
/// the order of the lines, and each game keeps its best scores.
pub open spec fn parsed(text: Seq<u8>) -> TableView {
    trimmed(collected(Seq::empty(), text, 0))
}

/// The line that records one score.
pub open spec fn record_line(game: Seq<u8>, score: u32) -> Seq<u8> {
    game + separator() + decimal(score as nat) + seq![LINE_FEED]
}

/// The lines that record the scores of one game, in the order of the list.
pub open spec fn entry_lines(game: Seq<u8>, scores: Seq<u32>) -> Seq<u8>
    decreases scores.len(),
{
    if scores.len() == 0 {
        Seq::empty()
    } else {
        entry_lines(game, scores.drop_last()) + record_line(game, scores.last())
    }
}

/// The text that holds the table: the lines of each entry, in the order of
/// the table.
pub open spec fn rendered(table: TableView) -> Seq<u8>
    decreases table.len(),
{
    if table.len() == 0 {
        Seq::empty()
    } else {
        rendered(table.drop_last()) + entry_lines(table.last().game, table.last().scores)
    }
}

/// The search for the end of a line stays inside the text.
pub proof fn lemma_line_end_bounds(text: Seq<u8>, from: int)
    requires
        0 <= from <= text.len(),
    ensures
        from <= line_end(text, from) <= text.len(),
    decreases text.len() - from,
{
    if from < text.len() && text[from] != LINE_FEED {
        lemma_line_end_bounds(text, from + 1);
    }
}

/// The search for the separator finds a place where it stands, or nothing.
pub proof fn lemma_find_separator(line: Seq<u8>, from: int)
    requires
        0 <= from,
    ensures
        from <= find_separator(line, from) || find_separator(line, from) == line.len(),
        find_separator(line, from) < line.len() ==> separator_at(line, find_separator(line, from)),
        forall|at: int| from <= at < find_separator(line, from) ==> !separator_at(line, at),
    decreases line.len() - from,
{
    if from + SEPARATOR_LEN <= line.len() && !separator_at(line, from) {
        lemma_find_separator(line, from + 1);
    }
}

/// Reading lines into a table keeps its games distinct and their lists
/// filled.
pub proof fn lemma_collected_distinct(table: TableView, text: Seq<u8>, from: int)
    requires
        table_distinct(table),
    ensures
        table_distinct(collected(table, text, from)),
    decreases text.len() - from,
{
    if 0 <= from < text.len() {
        lemma_line_end_bounds(text, from);
        let line = line_at(text, from);
        match parse_line(line) {
            Some((game, score)) => {
                lemma_with_score_distinct(table, game, score);
            },
            None => {},
        }
        lemma_collected_distinct(absorbed(table, line), text, next_line(text, from));
    }
}

/// Whatever the text, the table read from it has one entry per game, each
/// with at most ten scores, none followed by a higher one.
pub proof fn lemma_parsed_wf(text: Seq<u8>)
    ensures
        table_wf(parsed(text)),
{
    lemma_collected_distinct(Seq::empty(), text, 0);
    lemma_trimmed_wf(collected(Seq::empty(), text, 0));
}

/// Finds the end of the line that starts at index `from`: the index of its
/// line feed, or the length of the text if the line is the last and has none.
pub fn find_line_end(text: &[u8], from: usize) -> (end: usize)
    requires
        from <= text@.len(),
    ensures
        end == line_end(text@, from as int),
        from <= end <= text@.len(),
{
    let mut end: usize = from;
    while end < text.len() && text[end] != LINE_FEED
        invariant
            from <= end <= text@.len(),
            line_end(text@, end as int) == line_end(text@, from as int),
        decreases text.len() - end,
    {
        end += 1;
    }
    end
}

/// Tells whether the separator stands in the line at index `at`.
pub fn is_separator_at(line: &[u8], at: usize) -> (found: bool)
    requires
        at + SEPARATOR_LEN <= line.len(),
    ensures
        found == separator_at(line@, at as int),
{
    let mut k: usize = 0;
    while k < SEPARATOR_LEN
        invariant
            k <= SEPARATOR_LEN,
            at + SEPARATOR_LEN <= line.len(),
            forall|j: int| 0 <= j < k ==> line@[at + j] == separator()[j],
        decreases SEPARATOR_LEN - k,
    {
        if line[at + k] != SEPARATOR[k] {
            assert(line@.subrange(at as int, at + SEPARATOR_LEN)[k as int] != separator()[k as
                int]);
            return false;
        }
        k += 1;
    }
    assert(line@.subrange(at as int, at + SEPARATOR_LEN) =~= separator());
    true
}

/// Finds the first separator in the line: its index, or `None` if the line
/// has no separator.
pub fn first_separator(line: &[u8]) -> (found: Option<usize>)
    ensures
        match found {
            Some(at) => at == find_separator(line@, 0) && at + SEPARATOR_LEN <= line.len(),
            None => find_separator(line@, 0) == line@.len(),
        },
{
    if line.len() < SEPARATOR_LEN {
        return None;
    }
    let last: usize = line.len() - SEPARATOR_LEN;
    let mut at: usize = 0;
    while at <= last
        invariant
            at <= last + 1,
            last + SEPARATOR_LEN == line@.len() <= usize::MAX,
            find_separator(line@, at as int) == find_separator(line@, 0),
        decreases last + 1 - at,
    {
        if is_separator_at(line, at) {
            return Some(at);
        }
        at += 1;
    }
    None
}

/// Reads a score: one or more decimal digits, a plus sign before them
/// allowed. Any other text, and a number too large for a `u32`, gives `None`.
pub fn parse_score(text: &[u8]) -> (score: Option<u32>)
    ensures
        score == parse_number(text@),
{
    let start: usize = if text.len() > 0 && text[0] == PLUS_SIGN {
        1
    } else {
        0
    };
    let ghost digits = unsigned_part(text@);
    assert(digits =~= text@.skip(start as int));
    if start == text.len() {
        return None;
    }
    let mut value: u64 = 0;
    let mut i: usize = start;
    assert(digits.take(0) =~= Seq::<u8>::empty());
    while i < text.len()
        invariant
            start <= i <= text@.len(),
            digits == unsigned_part(text@),
            digits == text@.skip(start as int),
            all_digits(digits.take(i - start)),
            value == digits_value(digits.take(i - start)),
            value <= u32::MAX,
        decreases text.len() - i,
    {
        let byte = text[i];
        assert(digits[i - start] == byte);
        if byte < DIGIT_ZERO || byte > DIGIT_ZERO + 9 {
            assert(!is_digit(digits[i - start]));
            return None;
        }
        assert(digits.take(i - start + 1).drop_last() =~= digits.take(i - start));
        value = value * 10 + (byte - DIGIT_ZERO) as u64;
        assert(value == digits_value(digits.take(i - start + 1)));
        if value > u32::MAX as u64 {
            proof {
                if all_digits(digits) {
                    lemma_digits_value_grows(digits, i - start + 1);
                }
            }
            return None;
        }
        i += 1;
    }
    assert(digits.take(i - start) =~= digits);
    Some(value as u32)
}

/// A text of digits writes a number that is at least the number that any of
/// its beginnings writes.
pub proof fn lemma_digits_value_grows(digits: Seq<u8>, len: int)
    requires
        all_digits(digits),
        0 <= len <= digits.len(),
    ensures
        digits_value(digits.take(len)) <= digits_value(digits),
    decreases digits.len(),
{
    if len < digits.len() {
        assert(is_digit(digits.last()));
        lemma_digits_value_grows(digits.drop_last(), len);
        assert(digits.drop_last().take(len) =~= digits.take(len));
    } else {
        assert(digits.take(len) =~= digits);
    }
}

/// Reads a line as a record: the name of the game and the score.
pub fn read_record<'a>(line: &'a [u8]) -> (record: Option<(&'a [u8], u32)>)
    ensures
        match record {
            Some((game, score)) => parse_line(line@) == Some((game@, score)),
            None => parse_line(line@).is_none(),
        },
{
    match first_separator(line) {
        None => None,
        Some(at) => {
            let tail = &line[at + SEPARATOR_LEN..line.len()];
            assert(tail@ =~= line@.skip(at + SEPARATOR_LEN));
            match parse_score(tail) {
                None => None,
                Some(score) => {
                    let game = &line[0..at];
                    assert(game@ =~= line@.take(at as int));
                    Some((game, score))
                },
            }
        },
    }
}

/// Reads the score table from the text of the score file.
pub fn load_scores(content: &[u8]) -> (board: Leaderboard)
    ensures
        board@ == parsed(content@),
        table_wf(board@),
{
    proof {
        lemma_parsed_wf(content@);
    }
    let mut board = Leaderboard::new();
    let mut from: usize = 0;
    while from < content.len()
        invariant
            from <= content@.len(),
            collected(board@, content@, from as int) == collected(Seq::empty(), content@, 0),
        decreases content.len() - from,
    {
        let end = find_line_end(content, from);
        let stop: usize = if end < content.len() && from < end && content[end - 1]
            == CARRIAGE_RETURN {
            end - 1
        } else {
            end
        };
        let line = &content[from..stop];
        assert(line@ == line_at(content@, from as int));
        match read_record(line) {
            Some((game, score)) => {
                board.add(game, score);
            },
            None => {},
        }
        from = if end < content.len() {
            end + 1
        } else {
            end
        };
    }
    board.trim();
    board
}

/// Appends the decimal digits of `n` to `out`.
pub fn push_decimal(out: &mut Vec<u8>, n: u32)
    ensures
        final(out)@ == old(out)@ + decimal(n as nat),
    decreases n,
{
    if n >= 10 {
        push_decimal(out, n / 10);
    }
    out.push(DIGIT_ZERO + (n % 10) as u8);
    assert(out@ =~= old(out)@ + decimal(n as nat));
}

/// Appends the line that records one score to `out`.
pub fn push_record_line(out: &mut Vec<u8>, game: &[u8], score: u32)
    ensures
        final(out)@ == old(out)@ + record_line(game@, score),
{
    let mut i: usize = 0;
    while i < game.len()
        invariant
            i <= game.len(),
            out@ == old(out)@ + game@.take(i as int),
        decreases game.len() - i,
    {
        out.push(game[i]);
        assert(out@ =~= old(out)@ + game@.take(i + 1));
        i += 1;
    }
    assert(game@.take(i as int) =~= game@);
    let mut k: usize = 0;
    while k < SEPARATOR_LEN
        invariant
            k <= SEPARATOR_LEN,
            out@ == old(out)@ + game@ + separator().take(k as int),
        decreases SEPARATOR_LEN - k,
    {
        out.push(SEPARATOR[k]);
        assert(out@ =~= old(out)@ + game@ + separator().take(k + 1));
        k += 1;
    }
    assert(separator().take(k as int) =~= separator());
    push_decimal(out, score);
    out.push(LINE_FEED);
    assert(out@ =~= old(out)@ + record_line(game@, score));
}

/// Writes the score table as the text of the score file.
pub fn write_scores(board: &Leaderboard) -> (text: Vec<u8>)
    ensures
        text@ == rendered(board@),
{
    let mut text: Vec<u8> = Vec::new();
    let mut i: usize = 0;
    assert(board@.take(0) =~= Seq::<GameScoresView>::empty());
    while i < board.entries.len()
        invariant
            i <= board.entries.len(),
            text@ == rendered(board@.take(i as int)),
        decreases board.entries.len() - i,
    {
        let entry = &board.entries[i];
        assert(board@[i as int] == entry@);
        let ghost head = text@;
        let mut j: usize = 0;
        assert(entry.scores@.take(0) =~= Seq::<u32>::empty());
        assert(text@ =~= head + entry_lines(entry.game@, entry.scores@.take(0)));
        while j < entry.scores.len()
            invariant
                j <= entry.scores.len(),
                text@ == head + entry_lines(entry.game@, entry.scores@.take(j as int)),
            decreases entry.scores.len() - j,
        {
            push_record_line(&mut text, entry.game.as_slice(), entry.scores[j]);
            proof {
                let prefix = entry.scores@.take(j + 1);
                assert(prefix.drop_last() =~= entry.scores@.take(j as int));
                assert(text@ =~= head + entry_lines(entry.game@, prefix));
            }
            j += 1;
        }
        proof {
            assert(entry.scores@.take(j as int) =~= entry.scores@);
            assert(board@.take(i + 1).drop_last() =~= board@.take(i as int));
        }
        i += 1;
    }
    assert(board@.take(i as int) =~= board@);
    text
}

/// Computes the new text of the score file after `game` has scored: the
/// table is read from the old text, the score is recorded, and the table is
/// written out again.
pub fn save_score(content: &[u8], game: &[u8], score: u32) -> (text: Vec<u8>)
    ensures
        text@ == rendered(recorded(parsed(content@), game@, score)),
        table_wf(recorded(parsed(content@), game@, score)),
{
    let mut board = load_scores(content);
    board.record(game, score);
    write_scores(&board)
}

} // verus!
