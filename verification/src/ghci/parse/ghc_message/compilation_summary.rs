//! The line that ends a compilation, such as `Ok, 3 modules loaded.`

use crate::ghci::parse::ghc_message::generic_diagnostic::{end_of_line, line_end};
use crate::ghci::parse::scan::{
    is_word_at, number_at, numbers_are_read_back, read_number, word_at, words_stand_character_by_character,
    words_stand_one_after_the_other,
};
use crate::text::{decimal, decimal_round_trip, is_digit};
use vstd::prelude::*;

verus! {

/// How a compilation ended.
#[derive(Clone, Copy, Debug, PartialEq, Eq, Structural)]
pub enum CompilationResult {
    Success,
    Failure,
}

/// How many modules are loaded.
#[derive(Clone, Copy, Debug, PartialEq, Eq, Structural)]
pub enum ModulesLoaded {
    /// This many.
    Count(usize),
    /// All modules were unloaded.
    UnloadedAll,
}

/// The end of a compilation.
#[derive(Clone, Copy, Debug, PartialEq, Eq, Structural)]
pub struct CompilationSummary {
    pub result: CompilationResult,
    pub modules_loaded: ModulesLoaded,
}

/// The number that a word writes, up to six, and where it ends.
pub open spec fn small_number_at(s: Seq<char>, at: int) -> Option<(usize, int)> {
    if word_at(s, at, "no "@) {
        Some((0, at + "no "@.len() - 1))
    } else if word_at(s, at, "one "@) {
        Some((1, at + "one "@.len() - 1))
    } else if word_at(s, at, "two "@) {
        Some((2, at + "two "@.len() - 1))
    } else if word_at(s, at, "three "@) {
        Some((3, at + "three "@.len() - 1))
    } else if word_at(s, at, "four "@) {
        Some((4, at + "four "@.len() - 1))
    } else if word_at(s, at, "five "@) {
        Some((5, at + "five "@.len() - 1))
    } else if word_at(s, at, "six "@) {
        Some((6, at + "six "@.len() - 1))
    } else {
        number_at(s, at)
    }
}

/// How many modules are loaded, and where that ends.
pub open spec fn modules_at(s: Seq<char>, at: int) -> Option<(ModulesLoaded, int)> {
    if word_at(s, at, "unloaded all modules."@) {
        Some((ModulesLoaded::UnloadedAll, at + "unloaded all modules."@.len()))
    } else {
        match small_number_at(s, at) {
            Some((n, end)) => if word_at(s, end, " modules loaded."@) {
                Some((ModulesLoaded::Count(n), end + " modules loaded."@.len()))
            } else if word_at(s, end, " module loaded."@) {
                Some((ModulesLoaded::Count(n), end + " module loaded."@.len()))
            } else if word_at(s, end, " modules reloaded."@) {
                Some((ModulesLoaded::Count(n), end + " modules reloaded."@.len()))
            } else if word_at(s, end, " module reloaded."@) {
                Some((ModulesLoaded::Count(n), end + " module reloaded."@.len()))
            } else {
                None
            },
            None => None,
        }
    }
}

/// The summary that starts at `at`, and the end of its line.
pub open spec fn summary_at(s: Seq<char>, at: int) -> Option<(CompilationSummary, int)> {
    if word_at(s, at, "Ok, "@) {
        match modules_at(s, at + "Ok, "@.len()) {
            Some((modules_loaded, end)) => Some(
                (
                    CompilationSummary { result: CompilationResult::Success, modules_loaded },
                    line_end(s, end),
                ),
            ),
            None => None,
        }
    } else if word_at(s, at, "Failed, "@) {
        match modules_at(s, at + "Failed, "@.len()) {
            Some((modules_loaded, end)) => Some(
                (
                    CompilationSummary { result: CompilationResult::Failure, modules_loaded },
                    line_end(s, end),
                ),
            ),
            None => None,
        }
    } else {
        None
    }
}

fn read_small_number(v: &Vec<char>, at: usize) -> (r: Option<(usize, usize)>)
    requires
        at <= v@.len(),
    ensures
        match r {
            Some((n, end)) => small_number_at(v@, at as int) == Some((n, end as int)) && at <= end
                <= v@.len(),
            None => small_number_at(v@, at as int) is None,
        },
{
    proof {
        reveal_strlit("no ");
        reveal_strlit("one ");
        reveal_strlit("two ");
        reveal_strlit("three ");
        reveal_strlit("four ");
        reveal_strlit("five ");
        reveal_strlit("six ");
    }
    if is_word_at(v, at, "no ") {
        Some((0, at + 2))
    } else if is_word_at(v, at, "one ") {
        Some((1, at + 3))
    } else if is_word_at(v, at, "two ") {
        Some((2, at + 3))
    } else if is_word_at(v, at, "three ") {
        Some((3, at + 5))
    } else if is_word_at(v, at, "four ") {
        Some((4, at + 4))
    } else if is_word_at(v, at, "five ") {
        Some((5, at + 4))
    } else if is_word_at(v, at, "six ") {
        Some((6, at + 3))
    } else {
        read_number(v, at)
    }
}

fn read_modules(v: &Vec<char>, at: usize) -> (r: Option<(ModulesLoaded, usize)>)
    requires
        at <= v@.len(),
    ensures
        match r {
            Some((modules, end)) => modules_at(v@, at as int) == Some((modules, end as int)) && at <= end
                <= v@.len(),
            None => modules_at(v@, at as int) is None,
        },
{
    proof {
        reveal_strlit("unloaded all modules.");
        reveal_strlit(" modules loaded.");
        reveal_strlit(" module loaded.");
        reveal_strlit(" modules reloaded.");
        reveal_strlit(" module reloaded.");
    }
    if is_word_at(v, at, "unloaded all modules.") {
        return Some((ModulesLoaded::UnloadedAll, at + 21));
    }
    match read_small_number(v, at) {
        Some((n, end)) => if is_word_at(v, end, " modules loaded.") {
            Some((ModulesLoaded::Count(n), end + 16))
        } else if is_word_at(v, end, " module loaded.") {
            Some((ModulesLoaded::Count(n), end + 15))
        } else if is_word_at(v, end, " modules reloaded.") {
            Some((ModulesLoaded::Count(n), end + 18))
        } else if is_word_at(v, end, " module reloaded.") {
            Some((ModulesLoaded::Count(n), end + 17))
        } else {
            None
        },
        None => None,
    }
}

/// Reads the summary that starts at `at`.
pub fn compilation_summary(v: &Vec<char>, at: usize) -> (r: Option<(CompilationSummary, usize)>)
    requires
        at <= v@.len(),
    ensures
        match r {
            Some((summary, end)) => summary_at(v@, at as int) == Some((summary, end as int)) && at < end
                <= v@.len(),
            None => summary_at(v@, at as int) is None,
        },
{
    proof {
        reveal_strlit("Ok, ");
        reveal_strlit("Failed, ");
    }
    if is_word_at(v, at, "Ok, ") {
        match read_modules(v, at + 4) {
            Some((modules_loaded, end)) => Some(
                (
                    CompilationSummary { result: CompilationResult::Success, modules_loaded },
                    end_of_line(v, end),
                ),
            ),
            None => None,
        }
    } else if is_word_at(v, at, "Failed, ") {
        match read_modules(v, at + 8) {
            Some((modules_loaded, end)) => Some(
                (
                    CompilationSummary { result: CompilationResult::Failure, modules_loaded },
                    end_of_line(v, end),
                ),
            ),
            None => None,
        }
    } else {
        None
    }
}

/// A small number may be written as a word.
pub open spec fn number_word(n: usize) -> Seq<char> {
    if n == 0 {
        "no"@
    } else if n == 1 {
        "one"@
    } else if n == 2 {
        "two"@
    } else if n == 3 {
        "three"@
    } else if n == 4 {
        "four"@
    } else if n == 5 {
        "five"@
    } else {
        "six"@
    }
}

/// Whether a text writes a number: in digits, or up to six as a word.
pub open spec fn writes(text: Seq<char>, n: usize) -> bool {
    text == decimal(n as nat) || (n <= 6 && text == number_word(n))
}

proof fn lemma_first_of_word(s: Seq<char>, at: int, word: Seq<char>)
    ensures
        word_at(s, at, word) && word.len() > 0 ==> at < s.len() && s[at] == word[0],
        word_at(s, at, word) && word.len() > 1 ==> at + 1 < s.len() && s[at + 1] == word[1],
{
    words_stand_character_by_character(s, at, word);
    if word_at(s, at, word) && word.len() > 0 {
        assert(s[at + 0] == word[0]);
    }
    if word_at(s, at, word) && word.len() > 1 {
        assert(s[at + 1] == word[1]);
    }
}

/// The number of modules is read back from digits or from a word, before a space.
pub proof fn module_counts_are_read_back(s: Seq<char>, at: int, text: Seq<char>, n: usize)
    requires
        writes(text, n),
        word_at(s, at, text + " "@),
    ensures
        small_number_at(s, at) == Some((n, at + text.len())),
{
    reveal_strlit("no");
    reveal_strlit("one");
    reveal_strlit("two");
    reveal_strlit("three");
    reveal_strlit("four");
    reveal_strlit("five");
    reveal_strlit("six");
    reveal_strlit("no ");
    reveal_strlit("one ");
    reveal_strlit("two ");
    reveal_strlit("three ");
    reveal_strlit("four ");
    reveal_strlit("five ");
    reveal_strlit("six ");
    reveal_strlit(" ");
    assert("no"@ + " "@ =~= "no "@);
    assert("one"@ + " "@ =~= "one "@);
    assert("two"@ + " "@ =~= "two "@);
    assert("three"@ + " "@ =~= "three "@);
    assert("four"@ + " "@ =~= "four "@);
    assert("five"@ + " "@ =~= "five "@);
    assert("six"@ + " "@ =~= "six "@);
    lemma_first_of_word(s, at, "no "@);
    lemma_first_of_word(s, at, "one "@);
    lemma_first_of_word(s, at, "two "@);
    lemma_first_of_word(s, at, "three "@);
    lemma_first_of_word(s, at, "four "@);
    lemma_first_of_word(s, at, "five "@);
    lemma_first_of_word(s, at, "six "@);
    if text == decimal(n as nat) {
        decimal_round_trip(n as nat);
        lemma_first_of_word(s, at, text + " "@);
        assert((text + " "@)[0] == text[0]);
        assert(is_digit(text[0]));
        words_stand_one_after_the_other(s, at, text, " "@);
        lemma_first_of_word(s, at + text.len(), " "@);
        numbers_are_read_back(s, at, n);
    }
}

/// How the count of modules may go on: the session says it in these ways.
pub open spec fn loaded_words(reloaded: bool, one: bool) -> Seq<char> {
    if reloaded {
        if one {
            " module reloaded."@
        } else {
            " modules reloaded."@
        }
    } else {
        if one {
            " module loaded."@
        } else {
            " modules loaded."@
        }
    }
}

/// A count of modules is read back, whichever it is and however it is written, up to its full stop.
pub proof fn loaded_modules_are_read_back(
    s: Seq<char>,
    at: int,
    text: Seq<char>,
    n: usize,
    reloaded: bool,
    one: bool,
)
    requires
        writes(text, n),
        word_at(s, at, text + loaded_words(reloaded, one)),
    ensures
        modules_at(s, at) == Some(
            (ModulesLoaded::Count(n), at + text.len() + loaded_words(reloaded, one).len()),
        ),
{
    reveal_strlit(" ");
    reveal_strlit("unloaded all modules.");
    reveal_strlit(" modules loaded.");
    reveal_strlit(" module loaded.");
    reveal_strlit(" modules reloaded.");
    reveal_strlit(" module reloaded.");
    let rest = loaded_words(reloaded, one);
    let end = at + text.len();
    assert(rest =~= " "@ + rest.skip(1));
    assert(text + rest =~= (text + " "@) + rest.skip(1));
    words_stand_one_after_the_other(s, at, text + " "@, rest.skip(1));
    words_stand_one_after_the_other(s, at, text, rest);
    module_counts_are_read_back(s, at, text, n);
    lemma_starts_of_counts(s, at, text, n);
    words_stand_character_by_character(s, end, rest);
    words_stand_character_by_character(s, end, " modules loaded."@);
    words_stand_character_by_character(s, end, " module loaded."@);
    words_stand_character_by_character(s, end, " modules reloaded."@);
    words_stand_character_by_character(s, end, " module reloaded."@);
    assert(s[end + 7] == rest[7]);
    assert(s[end + 8] == rest[8]);
    assert(s[end + 9] == rest[9]);
    if word_at(s, end, " modules loaded."@) {
        assert(s[end + 7] == " modules loaded."@[7]);
        assert(s[end + 9] == " modules loaded."@[9]);
    }
    if word_at(s, end, " module loaded."@) {
        assert(s[end + 7] == " module loaded."@[7]);
        assert(s[end + 8] == " module loaded."@[8]);
    }
    if word_at(s, end, " modules reloaded."@) {
        assert(s[end + 7] == " modules reloaded."@[7]);
        assert(s[end + 9] == " modules reloaded."@[9]);
    }
}

proof fn lemma_starts_of_counts(s: Seq<char>, at: int, text: Seq<char>, n: usize)
    requires
        writes(text, n),
        word_at(s, at, text),
    ensures
        !word_at(s, at, "unloaded all modules."@),
{
    reveal_strlit("unloaded all modules.");
    reveal_strlit("no");
    reveal_strlit("one");
    reveal_strlit("two");
    reveal_strlit("three");
    reveal_strlit("four");
    reveal_strlit("five");
    reveal_strlit("six");
    decimal_round_trip(n as nat);
    lemma_first_of_word(s, at, text);
    lemma_first_of_word(s, at, "unloaded all modules."@);
    if text == decimal(n as nat) {
        assert(is_digit(text[0]));
    }
}

/// A summary is read back: whether the compilation succeeded, and how many modules are loaded, whatever follows on
/// the line. It takes the whole line.
pub proof fn summaries_are_read_back(
    s: Seq<char>,
    at: int,
    success: bool,
    text: Seq<char>,
    n: usize,
    reloaded: bool,
    one: bool,
)
    requires
        writes(text, n),
        word_at(
            s,
            at,
            (if success {
                "Ok, "@
            } else {
                "Failed, "@
            }) + (text + loaded_words(reloaded, one)),
        ),
    ensures
        summary_at(s, at) is Some,
        (summary_at(s, at)->0).0.modules_loaded == ModulesLoaded::Count(n),
        (summary_at(s, at)->0).0.result is Success <==> success,
        (summary_at(s, at)->0).1 == line_end(s, at + (if success {
            4int
        } else {
            8int
        }) + text.len() + loaded_words(reloaded, one).len()),
{
    reveal_strlit("Ok, ");
    reveal_strlit("Failed, ");
    let head = if success {
        "Ok, "@
    } else {
        "Failed, "@
    };
    words_stand_one_after_the_other(s, at, head, text + loaded_words(reloaded, one));
    lemma_first_of_word(s, at, head);
    lemma_first_of_word(s, at, "Ok, "@);
    lemma_first_of_word(s, at, "Failed, "@);
    loaded_modules_are_read_back(s, at + head.len(), text, n, reloaded, one);
}

/// A summary may say that no module is left.
pub proof fn unloading_is_read_back(s: Seq<char>, at: int, success: bool)
    requires
        word_at(
            s,
            at,
            (if success {
                "Ok, "@
            } else {
                "Failed, "@
            }) + "unloaded all modules."@,
        ),
    ensures
        summary_at(s, at) is Some,
        (summary_at(s, at)->0).0.modules_loaded == ModulesLoaded::UnloadedAll,
        (summary_at(s, at)->0).0.result is Success <==> success,
{
    reveal_strlit("Ok, ");
    reveal_strlit("Failed, ");
    let head = if success {
        "Ok, "@
    } else {
        "Failed, "@
    };
    words_stand_one_after_the_other(s, at, head, "unloaded all modules."@);
    lemma_first_of_word(s, at, head);
    lemma_first_of_word(s, at, "Ok, "@);
    lemma_first_of_word(s, at, "Failed, "@);
}

/// Only a line that starts in one of the two ways is a summary.
pub proof fn other_lines_are_no_summaries(s: Seq<char>, at: int)
    ensures
        summary_at(s, at) is Some ==> word_at(s, at, "Ok, "@) || word_at(s, at, "Failed, "@),
{
}

} // verus!
