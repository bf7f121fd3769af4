//! Which paths are Haskell source files.

use crate::path::{file_name_of, FilePath};
use crate::text::{same_text, to_chars, from_chars};
use vstd::prelude::*;

verus! {

/// The last position of `c` in `s`, or -1 if it does not occur.
pub open spec fn last_index(s: Seq<char>, c: char) -> int
    decreases s.len(),
{
    if s.len() == 0 {
        -1
    } else if s.last() == c {
        s.len() - 1
    } else {
        last_index(s.drop_last(), c)
    }
}

/// The last position of `c` in `v`.
pub fn last_position(v: &Vec<char>, c: char) -> (r: Option<usize>)
    ensures
        match r {
            Some(i) => i < v@.len() && i == last_index(v@, c) && v@[i as int] == c,
            None => last_index(v@, c) == -1,
        },
{
    let mut n: usize = v.len();
    proof {
        assert(v@.take(v@.len() as int) =~= v@);
    }
    while n > 0
        invariant
            n <= v@.len(),
            last_index(v@, c) == last_index(v@.take(n as int), c),
        decreases n,
    {
        n = n - 1;
        proof {
            assert(v@.take(n + 1).drop_last() =~= v@.take(n as int));
        }
        if v[n] == c {
            return Some(n);
        }
    }
    None
}

/// What follows the last dot of a file name that does not start with its only dot.
pub open spec fn extension_of(path: Seq<char>) -> Option<Seq<char>> {
    match file_name_of(path) {
        Some(name) => {
            let dot = last_index(name, '.');
            if dot > 0 {
                Some(name.skip(dot + 1))
            } else {
                None
            }
        },
        None => None,
    }
}

/// Whether a file name extension marks Haskell source.
pub open spec fn is_haskell_extension(e: Seq<char>) -> bool {
    e == "hs"@ || e == "lhs"@ || e == "hs-boot"@ || e == "lhs-boot"@ || e == "hsig"@ || e == "lhsig"@
        || e == "hspp"@ || e == "hscpp"@
}

/// Whether a path is that of a Haskell source file.
pub open spec fn haskell_source(path: Seq<char>) -> bool {
    match extension_of(path) {
        Some(e) => is_haskell_extension(e),
        None => false,
    }
}

/// The extension of the file that `path` leads to.
pub fn extension(path: &FilePath) -> (r: Option<String>)
    ensures
        match r {
            Some(e) => extension_of(path@) == Some(e@),
            None => extension_of(path@) is None,
        },
{
    match path.file_name() {
        Some(name) => {
            let v = to_chars(name.as_str());
            match last_position(&v, '.') {
                Some(dot) => if dot > 0 {
                    let n: usize = v.len();
                    proof {
                        assert(v@.subrange(dot + 1, n as int) =~= v@.skip(dot + 1));
                    }
                    Some(from_chars(&v, dot + 1, n))
                } else {
                    None
                },
                None => None,
            }
        },
        None => None,
    }
}

/// Whether `path` is that of a Haskell source file.
pub fn is_haskell_source_file(path: &FilePath) -> (r: bool)
    ensures
        r == haskell_source(path@),
{
    match extension(path) {
        Some(ext) => {
            let e = ext.as_str();
            same_text(e, "hs") || same_text(e, "lhs") || same_text(e, "hs-boot") || same_text(e, "lhs-boot")
                || same_text(e, "hsig") || same_text(e, "lhsig") || same_text(e, "hspp") || same_text(
                e,
                "hscpp",
            )
        },
        None => false,
    }
}

/// The last place of a character is the one that no other follows; where it does not occur there is none.
pub proof fn last_places_are_last(s: Seq<char>, c: char)
    ensures
        -1 <= last_index(s, c) < s.len(),
        last_index(s, c) >= 0 ==> s[last_index(s, c)] == c,
        forall|i: int| last_index(s, c) < i < s.len() ==> #[trigger] s[i] != c,
    decreases s.len(),
{
    if s.len() > 0 && s.last() != c {
        let rest = s.drop_last();
        last_places_are_last(rest, c);
        assert forall|i: int| last_index(s, c) < i < s.len() implies #[trigger] s[i] != c by {
            if i < rest.len() {
                assert(s[i] == rest[i]);
            }
        }
    }
}

/// The extension of a file is what follows the last dot of its name, unless nothing stands before that dot.
pub proof fn extensions_follow_the_last_dot(path: Seq<char>, stem: Seq<char>, extension: Seq<char>)
    requires
        file_name_of(path) == Some(stem + seq!['.'] + extension),
        forall|i: int| 0 <= i < extension.len() ==> #[trigger] extension[i] != '.',
    ensures
        stem.len() > 0 ==> extension_of(path) == Some(extension),
        stem.len() == 0 ==> extension_of(path) is None,
{
    let name = stem + seq!['.'] + extension;
    let n = stem.len() as int;
    last_places_are_last(name, '.');
    assert(name[n] == '.');
    let dot = last_index(name, '.');
    assert(dot == n) by {
        if dot > n {
            assert(name[dot] == extension[dot - n - 1]);
        }
    }
    assert(name.skip(n + 1) =~= extension);
}

/// A file is a Haskell source exactly if its name has one of these extensions.
pub proof fn sources_have_these_extensions(path: Seq<char>)
    ensures
        haskell_source(path) <==> extension_of(path) is Some && {
            let e = extension_of(path)->0;
            e == "hs"@ || e == "lhs"@ || e == "hs-boot"@ || e == "lhs-boot"@ || e == "hsig"@ || e == "lhsig"@ || e
                == "hspp"@ || e == "hscpp"@
        },
        file_name_of(path) is None ==> extension_of(path) is None,
{
}

} // verus!
