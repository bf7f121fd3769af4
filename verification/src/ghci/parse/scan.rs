//! Scanning a text from a position on.

use crate::text::{all_digits, decimal, decimal_round_trip, digits_value, has_prefix, is_digit, matches_at, to_chars};
use vstd::prelude::*;

verus! {

/// A class of characters.
#[derive(Clone, Copy, Debug, PartialEq, Eq, Structural)]
pub enum CharClass {
    /// A space or a tab.
    Blank,
    /// A decimal digit.
    Digit,
    /// A character of a path in a diagnostic: neither a colon nor a newline.
    PathChar,
    /// A character that does not end a line.
    InLine,
}

/// Whether `c` is of class `class`.
pub open spec fn in_class(c: char, class: CharClass) -> bool {
    match class {
        CharClass::Blank => c == ' ' || c == '\t',
        CharClass::Digit => is_digit(c),
        CharClass::PathChar => c != ':' && c != '\n',
        CharClass::InLine => c != '\n',
    }
}

/// The end of the run of characters of `class` that starts at `at`.
pub open spec fn run_end(s: Seq<char>, at: int, class: CharClass) -> int
    decreases s.len() - at,
{
    if 0 <= at < s.len() && in_class(s[at], class) {
        run_end(s, at + 1, class)
    } else {
        at
    }
}

/// A run ends at or after its start, and all its characters are of the class.
pub proof fn lemma_run_end(s: Seq<char>, at: int, class: CharClass)
    requires
        0 <= at <= s.len(),
    ensures
        at <= run_end(s, at, class) <= s.len(),
        forall|i: int| at <= i < run_end(s, at, class) ==> in_class(#[trigger] s[i], class),
        run_end(s, at, class) < s.len() ==> !in_class(s[run_end(s, at, class)], class),
    decreases s.len() - at,
{
    if at < s.len() && in_class(s[at], class) {
        lemma_run_end(s, at + 1, class);
    }
}

fn is_in_class(c: char, class: CharClass) -> (r: bool)
    ensures
        r == in_class(c, class),
{
    match class {
        CharClass::Blank => c == ' ' || c == '\t',
        CharClass::Digit => '0' <= c && c <= '9',
        CharClass::PathChar => c != ':' && c != '\n',
        CharClass::InLine => c != '\n',
    }
}

/// Finds the end of the run of characters of `class` that starts at `at`.
pub fn run_from(v: &Vec<char>, at: usize, class: CharClass) -> (r: usize)
    requires
        at <= v@.len(),
    ensures
        r == run_end(v@, at as int, class),
        at <= r <= v@.len(),
{
    let mut i: usize = at;
    while i < v.len() && is_in_class(v[i], class)
        invariant
            at <= i <= v@.len(),
            run_end(v@, at as int, class) == run_end(v@, i as int, class),
        decreases v@.len() - i,
    {
        i = i + 1;
    }
    i
}

/// Whether `word` stands at position `at`.
pub open spec fn word_at(s: Seq<char>, at: int, word: Seq<char>) -> bool {
    0 <= at <= s.len() && has_prefix(s.skip(at), word)
}

/// Whether `word` stands at position `at`.
pub fn is_word_at(v: &Vec<char>, at: usize, word: &str) -> (r: bool)
    requires
        at <= v@.len(),
    ensures
        r == word_at(v@, at as int, word@),
        r ==> at + word@.len() <= v.len(),
{
    let w = to_chars(word);
    matches_at(v, at, &w)
}

/// Whether the character `c` stands at position `at`.
pub open spec fn char_at(s: Seq<char>, at: int, c: char) -> bool {
    0 <= at < s.len() && s[at] == c
}

/// Whether the character `c` stands at position `at`.
pub fn is_char_at(v: &Vec<char>, at: usize, c: char) -> (r: bool)
    ensures
        r == char_at(v@, at as int, c),
        r ==> at < v.len(),
{
    at < v.len() && v[at] == c
}

/// The number that starts at `at`, which must fit a `usize`, and where it ends.
pub open spec fn number_at(s: Seq<char>, at: int) -> Option<(usize, int)> {
    let end = run_end(s, at, CharClass::Digit);
    if end == at || digits_value(s.subrange(at, end)) > usize::MAX {
        None
    } else {
        Some((digits_value(s.subrange(at, end)) as usize, end))
    }
}

/// Reads the number that starts at `at`.
pub fn read_number(v: &Vec<char>, at: usize) -> (r: Option<(usize, usize)>)
    requires
        at <= v@.len(),
    ensures
        match r {
            Some((n, end)) => number_at(v@, at as int) == Some((n, end as int)) && at < end <= v@.len(),
            None => number_at(v@, at as int) is None,
        },
{
    let end = run_from(v, at, CharClass::Digit);
    if end == at {
        return None;
    }
    let mut value: usize = 0;
    let mut i: usize = at;
    let ghost all = v@.subrange(at as int, end as int);
    proof {
        lemma_run_end(v@, at as int, CharClass::Digit);
        assert(all_digits(all)) by {
            assert forall|k: int| 0 <= k < all.len() implies is_digit(#[trigger] all[k]) by {
                assert(in_class(v@[at + k], CharClass::Digit));
            }
        }
        assert(all.take(0).len() == 0);
    }
    while i < end
        invariant
            at <= i <= end <= v@.len(),
            all == v@.subrange(at as int, end as int),
            all_digits(all),
            value == digits_value(all.take(i - at)),
            end == run_end(v@, at as int, CharClass::Digit),
        decreases end - i,
    {
        proof {
            assert(is_digit(all[i - at]));
            assert(all.take(i - at + 1).drop_last() =~= all.take(i - at));
            assert(all.take(i - at + 1).last() == v@[i as int]);
            crate::text::lemma_digits_value_grows(all, i - at + 1);
        }
        let digit: usize = v[i] as usize - 48;
        if value > usize::MAX / 10 {
            return None;
        }
        let scaled: usize = value * 10;
        if scaled > usize::MAX - digit {
            return None;
        }
        value = scaled + digit;
        i = i + 1;
    }
    proof {
        assert(all.take(all.len() as int) =~= all);
    }
    Some((value, end))
}

/// A word stands where each of its characters does, one after the other.
pub proof fn words_stand_character_by_character(s: Seq<char>, at: int, word: Seq<char>)
    ensures
        word_at(s, at, word) <==> 0 <= at && at + word.len() <= s.len() && forall|i: int|
            0 <= i < word.len() ==> s[at + i] == #[trigger] word[i],
{
    if 0 <= at && at + word.len() <= s.len() {
        let taken = s.skip(at).take(word.len() as int);
        if taken == word {
            assert forall|i: int| 0 <= i < word.len() implies s[at + i] == #[trigger] word[i] by {
                assert(taken[i] == word[i]);
            }
        }
        if forall|i: int| 0 <= i < word.len() ==> s[at + i] == #[trigger] word[i] {
            assert(taken =~= word);
        }
    }
}

/// A text stands where its first part does and the rest right after it.
pub proof fn words_stand_one_after_the_other(s: Seq<char>, at: int, a: Seq<char>, b: Seq<char>)
    ensures
        word_at(s, at, a + b) <==> word_at(s, at, a) && word_at(s, at + a.len(), b),
{
    words_stand_character_by_character(s, at, a + b);
    words_stand_character_by_character(s, at, a);
    words_stand_character_by_character(s, at + a.len(), b);
    if word_at(s, at, a + b) {
        assert forall|i: int| 0 <= i < a.len() implies s[at + i] == #[trigger] a[i] by {
            assert((a + b)[i] == a[i]);
        }
        assert forall|i: int| 0 <= i < b.len() implies s[at + a.len() + i] == #[trigger] b[i] by {
            assert((a + b)[a.len() + i] == b[i]);
        }
    }
    if word_at(s, at, a) && word_at(s, at + a.len(), b) {
        assert forall|i: int| 0 <= i < (a + b).len() implies s[at + i] == #[trigger] (a + b)[i] by {
            if i < a.len() {
                assert((a + b)[i] == a[i]);
            } else {
                assert((a + b)[i] == b[i - a.len()]);
            }
        }
    }
}

/// A run ends at the first character that is not of its class.
pub proof fn runs_end_with_their_class(s: Seq<char>, at: int, class: CharClass, end: int)
    requires
        0 <= at <= end <= s.len(),
        forall|i: int| at <= i < end ==> in_class(#[trigger] s[i], class),
        end < s.len() ==> !in_class(s[end], class),
    ensures
        run_end(s, at, class) == end,
    decreases end - at,
{
    if at < end {
        assert(in_class(s[at], class));
        runs_end_with_their_class(s, at + 1, class, end);
    }
}

/// Which characters the classes hold.
pub proof fn classes_hold_these_characters(c: char)
    ensures
        in_class(c, CharClass::Blank) <==> c == ' ' || c == '\t',
        in_class(c, CharClass::Digit) <==> c == '0' || c == '1' || c == '2' || c == '3' || c == '4' || c == '5' || c
            == '6' || c == '7' || c == '8' || c == '9',
        in_class(c, CharClass::PathChar) <==> c != ':' && c != '\n',
        in_class(c, CharClass::InLine) <==> c != '\n',
{
}

/// A number is read back from its decimal digits, whatever stands before them and whatever but a digit
/// follows them.
pub proof fn numbers_are_read_back(s: Seq<char>, at: int, n: usize)
    requires
        word_at(s, at, decimal(n as nat)),
        at + decimal(n as nat).len() < s.len() ==> !is_digit(s[at + decimal(n as nat).len()]),
    ensures
        number_at(s, at) == Some((n, at + decimal(n as nat).len())),
{
    let text = decimal(n as nat);
    let end = at + text.len();
    decimal_round_trip(n as nat);
    words_stand_character_by_character(s, at, text);
    assert forall|i: int| at <= i < end implies in_class(#[trigger] s[i], CharClass::Digit) by {
        assert(s[at + (i - at)] == text[i - at]);
    }
    runs_end_with_their_class(s, at, CharClass::Digit, end);
    assert(s.subrange(at, end) =~= text) by {
        assert forall|i: int| 0 <= i < text.len() implies s.subrange(at, end)[i] == text[i] by {
            assert(s[at + i] == text[i]);
        }
    }
}

} // verus!
