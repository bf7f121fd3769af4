//! Patterns of paths.

use crate::path::{file_name_of, NormalPath, NormalPathView};
use crate::text::{duplicate_texts, texts, to_chars};
use vstd::prelude::*;

verus! {

/// Whether a pattern is well formed: a `\` has a character to quote.
pub open spec fn well_formed(pattern: Seq<char>) -> bool
    decreases pattern.len(),
{
    if pattern.len() == 0 {
        true
    } else if pattern[0] == '\\' {
        pattern.len() > 1 && well_formed(pattern.skip(2))
    } else {
        well_formed(pattern.skip(1))
    }
}

/// Whether a text fits a pattern. A `*` stands for any text, a `\` makes the next character stand for
/// itself, and so does every other character.
pub open spec fn fits(pattern: Seq<char>, text: Seq<char>) -> bool
    decreases pattern.len() + text.len(),
{
    if pattern.len() == 0 {
        text.len() == 0
    } else if pattern[0] == '*' {
        fits(pattern.skip(1), text) || (text.len() > 0 && fits(pattern, text.skip(1)))
    } else if pattern[0] == '\\' {
        pattern.len() > 1 && text.len() > 0 && text[0] == pattern[1] && fits(pattern.skip(2), text.skip(1))
    } else {
        text.len() > 0 && text[0] == pattern[0] && fits(pattern.skip(1), text.skip(1))
    }
}

fn fits_from(pattern: &Vec<char>, i: usize, text: &Vec<char>, j: usize) -> (r: bool)
    requires
        i <= pattern@.len(),
        j <= text@.len(),
    ensures
        r == fits(pattern@.skip(i as int), text@.skip(j as int)),
    decreases pattern@.len() - i + (text@.len() - j),
{
    proof {
        if i < pattern@.len() {
            assert(pattern@.skip(i as int).skip(1) =~= pattern@.skip(i + 1));
        }
        if i + 1 < pattern@.len() {
            assert(pattern@.skip(i as int).skip(2) =~= pattern@.skip(i + 2));
        }
        if j < text@.len() {
            assert(text@.skip(j as int).skip(1) =~= text@.skip(j + 1));
        }
    }
    if i == pattern.len() {
        j == text.len()
    } else if pattern[i] == '*' {
        fits_from(pattern, i + 1, text, j) || (j < text.len() && fits_from(pattern, i, text, j + 1))
    } else if pattern[i] == '\\' {
        i + 1 < pattern.len() && j < text.len() && text[j] == pattern[i + 1] && fits_from(
            pattern,
            i + 2,
            text,
            j + 1,
        )
    } else {
        j < text.len() && text[j] == pattern[i] && fits_from(pattern, i + 1, text, j + 1)
    }
}

/// Whether a text fits a pattern.
pub fn is_match(pattern: &str, text: &str) -> (r: bool)
    ensures
        r == fits(pattern@, text@),
{
    let p = to_chars(pattern);
    let t = to_chars(text);
    proof {
        assert(p@.skip(0) =~= p@);
        assert(t@.skip(0) =~= t@);
    }
    fits_from(&p, 0, &t, 0)
}

/// Whether a pattern is well formed.
pub fn is_well_formed(pattern: &str) -> (r: bool)
    ensures
        r == well_formed(pattern@),
{
    let p = to_chars(pattern);
    let mut i: usize = 0;
    proof {
        assert(p@.skip(0) =~= p@);
    }
    while i < p.len()
        invariant
            i <= p@.len(),
            p@ == pattern@,
            well_formed(p@) == well_formed(p@.skip(i as int)),
        decreases p@.len() - i,
    {
        proof {
            assert(p@.skip(i as int)[0] == p@[i as int]);
            assert(p@.skip(i as int).skip(1) =~= p@.skip(i + 1));
        }
        if p[i] == '\\' {
            if i + 1 >= p.len() {
                return false;
            }
            proof {
                assert(p@.skip(i as int).skip(2) =~= p@.skip(i + 2));
            }
            i = i + 2;
        } else {
            i = i + 1;
        }
    }
    true
}

/// Whether a text fits one of the patterns.
pub open spec fn fits_any(patterns: Seq<Seq<char>>, text: Seq<char>) -> bool {
    exists|i: int| 0 <= i < patterns.len() && fits(#[trigger] patterns[i], text)
}

/// Whether a text fits one of the patterns.
pub fn any_match(patterns: &Vec<String>, text: &str) -> (r: bool)
    ensures
        r == fits_any(texts(patterns@), text@),
{
    let ghost all = texts(patterns@);
    let mut i: usize = 0;
    while i < patterns.len()
        invariant
            i <= patterns@.len(),
            all == texts(patterns@),
            forall|k: int| 0 <= k < i ==> !fits(#[trigger] all[k], text@),
        decreases patterns@.len() - i,
    {
        proof {
            assert(all[i as int] == patterns@[i as int]@);
        }
        if is_match(patterns[i].as_str(), text) {
            return true;
        }
        i = i + 1;
    }
    false
}

/// Whether a path fits one of the patterns: as it is shown, or by its name alone.
pub open spec fn path_fits(patterns: Seq<Seq<char>>, path: NormalPathView) -> bool {
    fits_any(patterns, path.relative) || match file_name_of(path.absolute) {
        Some(name) => fits_any(patterns, name),
        None => false,
    }
}

/// The first of the patterns that is not well formed.
pub open spec fn bad_pattern(patterns: Seq<Seq<char>>) -> Option<Seq<char>>
    decreases patterns.len(),
{
    if patterns.len() == 0 {
        None
    } else {
        match bad_pattern(patterns.drop_last()) {
            Some(pattern) => Some(pattern),
            None => if well_formed(patterns.last()) {
                None
            } else {
                Some(patterns.last())
            },
        }
    }
}

/// A pattern that is not well formed.
#[derive(Debug, PartialEq, Eq)]
pub struct GlobError {
    pub pattern: String,
}

/// Patterns of paths, all of them well formed.
#[derive(Debug)]
pub struct GlobMatcher {
    patterns: Vec<String>,
}

impl View for GlobMatcher {
    type V = Seq<Seq<char>>;

    closed spec fn view(&self) -> Seq<Seq<char>> {
        texts(self.patterns@)
    }
}

proof fn lemma_first_is_bad(patterns: Seq<Seq<char>>, n: int)
    requires
        0 <= n <= patterns.len(),
        bad_pattern(patterns.take(n)) is Some,
    ensures
        bad_pattern(patterns) == bad_pattern(patterns.take(n)),
    decreases patterns.len(),
{
    if n < patterns.len() {
        assert(patterns.drop_last().take(n) =~= patterns.take(n));
        lemma_first_is_bad(patterns.drop_last(), n);
    } else {
        assert(patterns.take(n) =~= patterns);
    }
}

impl GlobMatcher {
    #[verifier::type_invariant]
    spec fn inv(self) -> bool {
        bad_pattern(texts(self.patterns@)) is None
    }

    /// The matcher for these patterns, or the first of them that is not well formed.
    pub fn from_globs(patterns: &Vec<String>) -> (r: Result<Self, GlobError>)
        ensures
            match r {
                Ok(matcher) => bad_pattern(texts(patterns@)) is None && matcher@ == texts(patterns@),
                Err(error) => bad_pattern(texts(patterns@)) == Some(error.pattern@),
            },
    {
        let ghost all = texts(patterns@);
        let mut i: usize = 0;
        proof {
            assert(all.take(0).len() == 0);
        }
        while i < patterns.len()
            invariant
                i <= patterns@.len(),
                all == texts(patterns@),
                bad_pattern(all.take(i as int)) is None,
            decreases patterns@.len() - i,
        {
            proof {
                assert(all.take(i + 1).drop_last() =~= all.take(i as int));
                assert(all.take(i + 1).last() == patterns@[i as int]@);
            }
            if !is_well_formed(patterns[i].as_str()) {
                proof {
                    lemma_first_is_bad(all, i + 1);
                }
                return Err(GlobError { pattern: patterns[i].clone() });
            }
            i = i + 1;
        }
        proof {
            assert(all.take(all.len() as int) =~= all);
        }
        Ok(GlobMatcher { patterns: duplicate_texts(patterns) })
    }

    /// Whether a path fits one of the patterns.
    pub fn matches(&self, path: &NormalPath) -> (r: bool)
        ensures
            r == path_fits(self@, path@),
    {
        any_match(&self.patterns, path.relative().as_str()) || match path.absolute().file_name() {
            Some(name) => any_match(&self.patterns, name.as_str()),
            None => false,
        }
    }
}

impl Clone for GlobMatcher {
    fn clone(&self) -> (r: Self)
        ensures
            r@ == self@,
    {
        proof {
            use_type_invariant(self);
        }
        GlobMatcher { patterns: duplicate_texts(&self.patterns) }
    }
}

/// A pattern without special characters fits exactly itself.
pub proof fn plain_patterns_fit_themselves(pattern: Seq<char>, text: Seq<char>)
    requires
        forall|i: int| 0 <= i < pattern.len() ==> #[trigger] pattern[i] != '*' && pattern[i] != '\\',
    ensures
        fits(pattern, text) <==> text == pattern,
    decreases pattern.len(),
{
    if pattern.len() == 0 {
        assert(text.len() == 0 ==> text =~= pattern);
    } else {
        let rest = pattern.skip(1);
        assert(pattern[0] != '*' && pattern[0] != '\\');
        assert forall|i: int| 0 <= i < rest.len() implies #[trigger] rest[i] != '*' && rest[i] != '\\' by {
            assert(rest[i] == pattern[i + 1]);
        }
        plain_patterns_fit_themselves(rest, text.skip(1));
        if text.len() > 0 && text[0] == pattern[0] && text.skip(1) == rest {
            assert(text =~= seq![text[0]] + text.skip(1));
            assert(pattern =~= seq![pattern[0]] + rest);
        }
    }
}

/// A star stands for any text, also for none and also for slashes: the rest of the pattern has to fit what follows.
pub proof fn stars_stand_for_any_text(pattern: Seq<char>, text: Seq<char>)
    ensures
        fits(seq!['*'] + pattern, text) <==> exists|k: int|
            0 <= k <= text.len() && fits(pattern, #[trigger] text.skip(k)),
        fits(seq!['*'], text),
    decreases text.len(),
{
    let all = seq!['*'] + pattern;
    assert(all.skip(1) =~= pattern);
    assert(text.skip(0) =~= text);
    if text.len() > 0 {
        let rest = text.skip(1);
        stars_stand_for_any_text(pattern, rest);
        if exists|k: int| 0 <= k <= rest.len() && fits(pattern, #[trigger] rest.skip(k)) {
            let k = choose|k: int| 0 <= k <= rest.len() && fits(pattern, #[trigger] rest.skip(k));
            assert(text.skip(k + 1) =~= rest.skip(k));
        }
        if exists|k: int| 0 <= k <= text.len() && fits(pattern, #[trigger] text.skip(k)) {
            let k = choose|k: int| 0 <= k <= text.len() && fits(pattern, #[trigger] text.skip(k));
            if k > 0 {
                assert(rest.skip(k - 1) =~= text.skip(k));
            }
        }
    } else if exists|k: int| 0 <= k <= text.len() && fits(pattern, #[trigger] text.skip(k)) {
        let k = choose|k: int| 0 <= k <= text.len() && fits(pattern, #[trigger] text.skip(k));
        assert(text.skip(k) =~= text);
    }
    let star: Seq<char> = seq!['*'];
    assert(star[0] == '*');
    assert(star.skip(1).len() == 0);
    reveal_with_fuel(fits, 2);
    if text.len() > 0 {
        assert(fits(star, text.skip(1)));
    }
    assert(fits(star, text));
}

/// A quoted character stands for itself, whichever it is; every other one does, too, but for the two special ones.
pub proof fn characters_stand_for_themselves(c: char, pattern: Seq<char>, text: Seq<char>)
    ensures
        fits(seq!['\\', c] + pattern, text) <==> text.len() > 0 && text[0] == c && fits(pattern, text.skip(1)),
        c != '*' && c != '\\' ==> (fits(seq![c] + pattern, text) <==> text.len() > 0 && text[0] == c && fits(
            pattern,
            text.skip(1),
        )),
        fits(seq![], text) <==> text.len() == 0,
{
    let quoted = seq!['\\', c] + pattern;
    assert(quoted[0] == '\\' && quoted[1] == c);
    assert(quoted.skip(2) =~= pattern);
    let plain = seq![c] + pattern;
    assert(plain[0] == c);
    assert(plain.skip(1) =~= pattern);
}

/// A star before a text fits exactly what ends with that text.
pub proof fn endings_fit_after_a_star(ending: Seq<char>, text: Seq<char>)
    requires
        forall|i: int| 0 <= i < ending.len() ==> #[trigger] ending[i] != '*' && ending[i] != '\\',
    ensures
        fits(seq!['*'] + ending, text) <==> ending.len() <= text.len() && text.skip(text.len() - ending.len()) == ending,
{
    stars_stand_for_any_text(ending, text);
    if fits(seq!['*'] + ending, text) {
        let k = choose|k: int| 0 <= k <= text.len() && fits(ending, #[trigger] text.skip(k));
        plain_patterns_fit_themselves(ending, text.skip(k));
        assert(k == text.len() - ending.len());
    }
    if ending.len() <= text.len() && text.skip(text.len() - ending.len()) == ending {
        let k = text.len() - ending.len();
        plain_patterns_fit_themselves(ending, text.skip(k));
    }
}

/// A pattern is well formed exactly if each backslash has a character to quote.
pub proof fn quotes_need_a_character(c: char, pattern: Seq<char>)
    ensures
        well_formed(seq![]),
        !well_formed(seq!['\\']),
        well_formed(seq!['\\', c] + pattern) <==> well_formed(pattern),
        c != '\\' ==> (well_formed(seq![c] + pattern) <==> well_formed(pattern)),
{
    let quoted = seq!['\\', c] + pattern;
    assert(quoted[0] == '\\');
    assert(quoted.skip(2) =~= pattern);
    let plain = seq![c] + pattern;
    assert(plain[0] == c);
    assert(plain.skip(1) =~= pattern);
}

/// A path fits if one of the patterns fits it as it is shown, or fits its name.
pub proof fn paths_fit_as_shown_or_by_name(patterns: Seq<Seq<char>>, path: NormalPathView, i: int)
    ensures
        0 <= i < patterns.len() && fits(patterns[i], path.relative) ==> path_fits(patterns, path),
        0 <= i < patterns.len() && file_name_of(path.absolute) is Some && fits(
            patterns[i],
            file_name_of(path.absolute)->0,
        ) ==> path_fits(patterns, path),
        path_fits(patterns, path) ==> exists|k: int|
            0 <= k < patterns.len() && (fits(#[trigger] patterns[k], path.relative) || (file_name_of(path.absolute) is Some
                && fits(patterns[k], file_name_of(path.absolute)->0))),
{
}

/// The first pattern that is not well formed is told; none is if all are.
pub proof fn first_bad_pattern_is_told(patterns: Seq<Seq<char>>, i: int)
    ensures
        0 <= i < patterns.len() && !well_formed(patterns[i]) && (forall|j: int|
            0 <= j < i ==> well_formed(#[trigger] patterns[j])) ==> bad_pattern(patterns) == Some(patterns[i]),
        (forall|j: int| 0 <= j < patterns.len() ==> well_formed(#[trigger] patterns[j])) ==> bad_pattern(patterns) is None,
    decreases patterns.len(),
{
    if patterns.len() > 0 {
        let rest = patterns.drop_last();
        let last = patterns.len() - 1;
        first_bad_pattern_is_told(rest, i);
        if forall|j: int| 0 <= j < patterns.len() ==> well_formed(#[trigger] patterns[j]) {
            assert forall|j: int| 0 <= j < rest.len() implies well_formed(#[trigger] rest[j]) by {
                assert(rest[j] == patterns[j]);
            }
            assert(well_formed(patterns[last]));
        }
        if 0 <= i < patterns.len() && !well_formed(patterns[i]) && (forall|j: int|
            0 <= j < i ==> well_formed(#[trigger] patterns[j])) {
            if i < last {
                assert(rest[i] == patterns[i]);
                assert forall|j: int| 0 <= j < i implies well_formed(#[trigger] rest[j]) by {
                    assert(rest[j] == patterns[j]);
                }
            } else {
                assert forall|j: int| 0 <= j < rest.len() implies well_formed(#[trigger] rest[j]) by {
                    assert(rest[j] == patterns[j]);
                }
            }
        }
    }
}

} // verus!
