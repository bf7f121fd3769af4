//! Source positions in diagnostics.

use crate::ghci::parse::ghc_message::PositionRange;
use crate::ghci::parse::scan::{
    char_at, is_char_at, is_word_at, number_at, numbers_are_read_back, read_number, word_at,
    words_stand_character_by_character, words_stand_one_after_the_other,
};
use crate::text::{decimal, decimal_round_trip, is_digit};
use vstd::prelude::*;

verus! {

/// A line and a column with `separator` between them.
pub open spec fn pair_at(s: Seq<char>, at: int, separator: char) -> Option<((usize, usize), int)> {
    match number_at(s, at) {
        Some((line, end)) => if char_at(s, end, separator) {
            match number_at(s, end + 1) {
                Some((column, end)) => Some(((line, column), end)),
                None => None,
            }
        } else {
            None
        },
        None => None,
    }
}

/// A range of positions and the colon after it: `4:11:`, `4:11-13:` or `(4,11)-(5,2):`.
pub open spec fn position_range_at(s: Seq<char>, at: int) -> Option<(PositionRange, int)> {
    if char_at(s, at, '(') {
        match pair_at(s, at + 1, ',') {
            Some(((line, column), end)) => if word_at(s, end, ")-("@) {
                match pair_at(s, end + ")-("@.len(), ',') {
                    Some(((end_line, end_column), end)) => if word_at(s, end, "):"@) {
                        Some(
                            (
                                PositionRange {
                                    start_line: line,
                                    start_column: column,
                                    end_line,
                                    end_column,
                                },
                                end + "):"@.len(),
                            ),
                        )
                    } else {
                        None
                    },
                    None => None,
                }
            } else {
                None
            },
            None => None,
        }
    } else {
        match pair_at(s, at, ':') {
            Some(((line, column), end)) => if char_at(s, end, ':') {
                Some(
                    (
                        PositionRange {
                            start_line: line,
                            start_column: column,
                            end_line: line,
                            end_column: column,
                        },
                        end + 1,
                    ),
                )
            } else if char_at(s, end, '-') {
                match number_at(s, end + 1) {
                    Some((end_column, end)) => if char_at(s, end, ':') {
                        Some(
                            (
                                PositionRange {
                                    start_line: line,
                                    start_column: column,
                                    end_line: line,
                                    end_column,
                                },
                                end + 1,
                            ),
                        )
                    } else {
                        None
                    },
                    None => None,
                }
            } else {
                None
            },
            None => None,
        }
    }
}

fn read_pair(v: &Vec<char>, at: usize, separator: char) -> (r: Option<((usize, usize), usize)>)
    requires
        at <= v@.len(),
    ensures
        match r {
            Some((pair, end)) => pair_at(v@, at as int, separator) == Some((pair, end as int)) && at < end
                <= v@.len(),
            None => pair_at(v@, at as int, separator) is None,
        },
{
    match read_number(v, at) {
        Some((line, end)) => if is_char_at(v, end, separator) {
            match read_number(v, end + 1) {
                Some((column, end)) => Some(((line, column), end)),
                None => None,
            }
        } else {
            None
        },
        None => None,
    }
}

/// Reads a range of positions and the colon after it.
pub fn parse_position_range(v: &Vec<char>, at: usize) -> (r: Option<(PositionRange, usize)>)
    requires
        at <= v@.len(),
    ensures
        match r {
            Some((range, end)) => position_range_at(v@, at as int) == Some((range, end as int)) && at
                < end <= v@.len(),
            None => position_range_at(v@, at as int) is None,
        },
{
    if is_char_at(v, at, '(') {
        let ((line, column), end) = match read_pair(v, at + 1, ',') {
            Some(pair) => pair,
            None => {
                return None;
            },
        };
        proof {
            reveal_strlit(")-(");
            reveal_strlit("):");
        }
        if !is_word_at(v, end, ")-(") {
            return None;
        }
        let ((end_line, end_column), end) = match read_pair(v, end + 3, ',') {
            Some(pair) => pair,
            None => {
                return None;
            },
        };
        if is_word_at(v, end, "):") {
            Some((PositionRange::new(line, column, end_line, end_column), end + 2))
        } else {
            None
        }
    } else {
        let ((line, column), end) = match read_pair(v, at, ':') {
            Some(pair) => pair,
            None => {
                return None;
            },
        };
        if is_char_at(v, end, ':') {
            Some((PositionRange::new(line, column, line, column), end + 1))
        } else if is_char_at(v, end, '-') {
            match read_number(v, end + 1) {
                Some((end_column, end)) => if is_char_at(v, end, ':') {
                    Some((PositionRange::new(line, column, line, end_column), end + 1))
                } else {
                    None
                },
                None => None,
            }
        } else {
            None
        }
    }
}

proof fn lemma_pair(s: Seq<char>, at: int, line: usize, column: usize, separator: char)
    requires
        word_at(s, at, decimal(line as nat) + seq![separator] + decimal(column as nat)),
        !is_digit(separator),
        ({
            let end = at + decimal(line as nat).len() + 1 + decimal(column as nat).len();
            end < s.len() ==> !is_digit(s[end])
        }),
    ensures
        pair_at(s, at, separator) == Some(
            ((line, column), at + decimal(line as nat).len() + 1 + decimal(column as nat).len()),
        ),
{
    let l = decimal(line as nat);
    let c = decimal(column as nat);
    words_stand_one_after_the_other(s, at, l + seq![separator], c);
    words_stand_one_after_the_other(s, at, l, seq![separator]);
    lemma_first_character(s, at + l.len(), seq![separator]);
    words_stand_character_by_character(s, at, l);
    numbers_are_read_back(s, at, line);
    numbers_are_read_back(s, at + l.len() + 1, column);
}

proof fn lemma_wide_range(s: Seq<char>, at: int, range: PositionRange)
    requires
        range.start_line != range.end_line,
        word_at(s, at, range.text() + ":"@),
    ensures
        position_range_at(s, at) == Some((range, at + range.text().len() + 1)),
{
    reveal_strlit("(");
    reveal_strlit(",");
    reveal_strlit(")-(");
    reveal_strlit(")");
    reveal_strlit("):");
    reveal_strlit(":");
    let from = decimal(range.start_line as nat) + seq![','] + decimal(range.start_column as nat);
    let to = decimal(range.end_line as nat) + seq![','] + decimal(range.end_column as nat);
    assert(range.text() + ":"@ =~= "("@ + (from + (")-("@ + (to + "):"@))));
    words_stand_one_after_the_other(s, at, "("@, from + (")-("@ + (to + "):"@)));
    words_stand_one_after_the_other(s, at + 1, from, ")-("@ + (to + "):"@));
    words_stand_one_after_the_other(s, at + 1 + from.len(), ")-("@, to + "):"@);
    words_stand_one_after_the_other(s, at + 4 + from.len(), to, "):"@);
    lemma_first_character(s, at, "("@);
    lemma_first_character(s, at + 1 + from.len(), ")-("@);
    lemma_first_character(s, at + 4 + from.len() + to.len(), "):"@);
    lemma_pair(s, at + 1, range.start_line, range.start_column, ',');
    lemma_pair(s, at + 4 + from.len(), range.end_line, range.end_column, ',');
}

proof fn lemma_narrow_range(s: Seq<char>, at: int, range: PositionRange)
    requires
        range.start_line == range.end_line,
        word_at(s, at, range.text() + ":"@),
    ensures
        position_range_at(s, at) == Some((range, at + range.text().len() + 1)),
{
    reveal_strlit(":");
    reveal_strlit("-");
    let l = decimal(range.start_line as nat);
    let from = l + seq![':'] + decimal(range.start_column as nat);
    let to = decimal(range.end_column as nat);
    decimal_round_trip(range.start_line as nat);
    assert(is_digit(l[0]));
    if range.start_column != range.end_column {
        assert(range.text() + ":"@ =~= from + ("-"@ + (to + ":"@)));
        words_stand_one_after_the_other(s, at, from, "-"@ + (to + ":"@));
        words_stand_one_after_the_other(s, at + from.len(), "-"@, to + ":"@);
        words_stand_one_after_the_other(s, at + from.len() + 1, to, ":"@);
        lemma_first_character(s, at + from.len(), "-"@);
        lemma_first_character(s, at + from.len() + 1 + to.len(), ":"@);
        lemma_first_character(s, at, from);
        lemma_pair(s, at, range.start_line, range.start_column, ':');
        numbers_are_read_back(s, at + from.len() + 1, range.end_column);
    } else {
        assert(range.text() + ":"@ =~= from + ":"@);
        words_stand_one_after_the_other(s, at, from, ":"@);
        lemma_first_character(s, at + from.len(), ":"@);
        lemma_first_character(s, at, from);
        lemma_pair(s, at, range.start_line, range.start_column, ':');
    }
}

/// A range of positions is read back from its text, of whichever of the three shapes, and from the colon
/// after it.
pub proof fn positions_are_read_back(s: Seq<char>, at: int, range: PositionRange)
    requires
        word_at(s, at, range.text() + ":"@),
    ensures
        position_range_at(s, at) == Some((range, at + range.text().len() + 1)),
{
    if range.start_line != range.end_line {
        lemma_wide_range(s, at, range);
    } else {
        lemma_narrow_range(s, at, range);
    }
}

proof fn lemma_first_character(s: Seq<char>, at: int, word: Seq<char>)
    ensures
        word_at(s, at, word) && word.len() > 0 ==> at < s.len() && s[at] == word[0],
{
    words_stand_character_by_character(s, at, word);
    if word_at(s, at, word) && word.len() > 0 {
        assert(s[at + 0] == word[0]);
    }
}

/// A line and a column are read only with the separator between them, and only as the numbers that stand there.
pub proof fn separators_are_needed(s: Seq<char>, at: int, separator: char)
    ensures
        ({
            let first = number_at(s, at);
            let pair = pair_at(s, at, separator);
            &&& pair is Some ==> first is Some && char_at(s, (first->0).1, separator)
            &&& pair is Some ==> number_at(s, (first->0).1 + 1) is Some
            &&& pair is Some ==> (pair->0).0 == ((first->0).0, (number_at(s, (first->0).1 + 1)->0).0)
            &&& pair is Some ==> (pair->0).1 == (number_at(s, (first->0).1 + 1)->0).1
            &&& first is Some && char_at(s, (first->0).1, separator) && number_at(s, (first->0).1 + 1) is Some ==> pair
                is Some
        }),
{
}

} // verus!
