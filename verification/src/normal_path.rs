//! Bringing paths into their normal form.

use crate::path::{components, part_rank, path_parts, rank_of_part, FilePath, NormalPath, NormalPathView};
use crate::text::{join, joined, separators_stand_between_texts, texts, to_chars};
use vstd::prelude::*;

verus! {

/// A path as seen from a directory: an absolute path is what it is, a relative one starts there.
pub open spec fn placed(directory: Seq<char>, path: Seq<char>) -> Seq<char> {
    if directory.len() == 0 || (path.len() > 0 && path[0] == '/') {
        path
    } else {
        directory + seq!['/'] + path
    }
}

/// The components without `.`, and with each `..` taken back with what it undoes. Nothing stands above
/// the root.
pub open spec fn cleaned(parts: Seq<Seq<char>>) -> Seq<Seq<char>>
    decreases parts.len(),
{
    if parts.len() == 0 {
        seq![]
    } else {
        let before = cleaned(parts.drop_last());
        if part_rank(parts.last()) == 1 {
            before
        } else if part_rank(parts.last()) == 2 {
            if before.len() > 0 && part_rank(before.last()) != 0 {
                before.drop_last()
            } else {
                before
            }
        } else {
            before.push(parts.last())
        }
    }
}

/// The text of the path with these components.
pub open spec fn path_text(parts: Seq<Seq<char>>) -> Seq<char> {
    if parts.len() > 0 && part_rank(parts[0]) == 0 {
        seq!['/'] + joined(parts.skip(1), "/"@)
    } else {
        joined(parts, "/"@)
    }
}

/// The normal form of a path as seen from a directory. It is shown relative to the directory if it lies
/// below it.
pub open spec fn normal(directory: Seq<char>, path: Seq<char>) -> NormalPathView {
    let parts = cleaned(path_parts(placed(directory, path)));
    let first = path_parts(directory);
    NormalPathView {
        absolute: path_text(parts),
        relative: if first.len() < parts.len() && parts.take(first.len() as int) == first {
            path_text(parts.skip(first.len() as int))
        } else {
            path_text(parts)
        },
    }
}

proof fn lemma_clean_is_kept(parts: Seq<Seq<char>>)
    requires
        forall|i: int| 0 <= i < parts.len() ==> part_rank(#[trigger] parts[i]) == 0 || part_rank(parts[i]) == 3,
    ensures
        cleaned(parts) == parts,
    decreases parts.len(),
{
    if parts.len() > 0 {
        let before = parts.drop_last();
        assert forall|i: int| 0 <= i < before.len() implies part_rank(#[trigger] before[i]) == 0 || part_rank(
            before[i],
        ) == 3 by {
            assert(before[i] == parts[i]);
        }
        lemma_clean_is_kept(before);
        assert(part_rank(parts[parts.len() - 1]) == 0 || part_rank(parts[parts.len() - 1]) == 3);
        assert(before.push(parts.last()) =~= parts);
    }
}

/// A normal form holds neither `.` nor `..`, and stays as it is when it is cleaned again.
pub proof fn normal_form_is_stable(parts: Seq<Seq<char>>)
    ensures
        forall|i: int|
            0 <= i < cleaned(parts).len() ==> part_rank(#[trigger] cleaned(parts)[i]) == 0 || part_rank(
                cleaned(parts)[i],
            ) == 3,
        cleaned(cleaned(parts)) == cleaned(parts),
    decreases parts.len(),
{
    if parts.len() > 0 {
        let before = cleaned(parts.drop_last());
        normal_form_is_stable(parts.drop_last());
        assert forall|i: int| 0 <= i < cleaned(parts).len() implies part_rank(#[trigger] cleaned(parts)[i]) == 0
            || part_rank(cleaned(parts)[i]) == 3 by {
            if i < before.len() {
                assert(cleaned(parts)[i] == before[i]);
            }
        }
    }
    lemma_clean_is_kept(cleaned(parts));
}

fn clean(parts: &Vec<String>) -> (r: Vec<String>)
    ensures
        texts(r@) == cleaned(texts(parts@)),
{
    let ghost all = texts(parts@);
    let mut r: Vec<String> = Vec::new();
    let mut i: usize = 0;
    proof {
        assert(texts(r@) =~= cleaned(all.take(0)));
    }
    while i < parts.len()
        invariant
            i <= parts@.len(),
            all == texts(parts@),
            texts(r@) == cleaned(all.take(i as int)),
        decreases parts@.len() - i,
    {
        let ghost before = texts(r@);
        proof {
            assert(all.take(i + 1).drop_last() =~= all.take(i as int));
            assert(all.take(i + 1).last() == parts@[i as int]@);
        }
        let rank = rank_of_part(parts[i].as_str());
        if rank == 2 {
            let n: usize = r.len();
            if n > 0 && rank_of_part(r[n - 1].as_str()) != 0 {
                let _ = r.pop();
                proof {
                    assert(texts(r@) =~= before.drop_last());
                }
            }
        } else if rank != 1 {
            r.push(parts[i].clone());
            proof {
                assert(texts(r@) =~= before.push(parts@[i as int]@));
            }
        }
        i = i + 1;
    }
    proof {
        assert(all.take(all.len() as int) =~= all);
    }
    r
}

/// The texts from a place on.
pub(crate) fn texts_from(parts: &Vec<String>, from: usize) -> (r: Vec<String>)
    requires
        from <= parts@.len(),
    ensures
        texts(r@) == texts(parts@).skip(from as int),
{
    let mut r: Vec<String> = Vec::new();
    let mut i: usize = from;
    proof {
        assert(texts(r@) =~= texts(parts@).subrange(from as int, from as int));
    }
    while i < parts.len()
        invariant
            from <= i <= parts@.len(),
            texts(r@) == texts(parts@).subrange(from as int, i as int),
        decreases parts@.len() - i,
    {
        let ghost before = texts(r@);
        r.push(parts[i].clone());
        proof {
            assert(texts(r@) =~= before.push(parts@[i as int]@));
            assert(texts(parts@).subrange(from as int, i + 1) =~= before.push(parts@[i as int]@));
        }
        i = i + 1;
    }
    proof {
        assert(texts(parts@).subrange(from as int, parts@.len() as int) =~= texts(parts@).skip(from as int));
    }
    r
}

fn text_from(parts: &Vec<String>, from: usize) -> (r: String)
    requires
        from <= parts@.len(),
    ensures
        r@ == path_text(texts(parts@).skip(from as int)),
{
    let ghost s = texts(parts@).skip(from as int);
    if from < parts.len() && rank_of_part(parts[from].as_str()) == 0 {
        let rest = texts_from(parts, from + 1);
        let mut r = String::new();
        r.push('/');
        r.append(join(&rest, "/").as_str());
        proof {
            assert(s.skip(1) =~= texts(rest@));
            assert(r@ =~= seq!['/'] + joined(texts(rest@), "/"@));
        }
        r
    } else {
        let rest = texts_from(parts, from);
        proof {
            if s.len() > 0 {
                assert(s[0] == parts@[from as int]@);
            }
        }
        join(&rest, "/")
    }
}

/// Whether the first texts of `parts` are those of `first`.
pub(crate) fn begins_with(parts: &Vec<String>, first: &Vec<String>) -> (r: bool)
    ensures
        r == (first@.len() <= parts@.len() && texts(parts@).take(first@.len() as int) == texts(first@)),
{
    if first.len() > parts.len() {
        return false;
    }
    let ghost x = texts(parts@);
    let ghost y = texts(first@);
    let mut i: usize = 0;
    while i < first.len()
        invariant
            i <= first@.len() <= parts@.len(),
            x == texts(parts@),
            y == texts(first@),
            forall|k: int| 0 <= k < i ==> x[k] == y[k],
        decreases first@.len() - i,
    {
        if parts[i] != first[i] {
            proof {
                assert(x[i as int] != y[i as int]);
                assert(x.take(y.len() as int)[i as int] == x[i as int]);
            }
            return false;
        }
        i = i + 1;
    }
    proof {
        assert(x.take(y.len() as int) =~= y);
    }
    true
}

fn place(directory: &str, path: &str) -> (r: String)
    ensures
        r@ == placed(directory@, path@),
{
    let v = to_chars(path);
    if directory.unicode_len() == 0 || (v.len() > 0 && v[0] == '/') {
        return path.to_owned();
    }
    let mut r = directory.to_owned();
    r.push('/');
    r.append(path);
    proof {
        assert(r@ =~= directory@ + seq!['/'] + path@);
    }
    r
}

impl NormalPath {
    /// The normal form of a path as seen from a directory.
    pub fn from_directory(directory: &FilePath, path: &FilePath) -> (r: Self)
        ensures
            r@ == normal(directory@, path@),
    {
        let text = place(directory.as_str(), path.as_str());
        let parts = clean(&components(text.as_str()));
        let first = components(directory.as_str());
        let ghost all = texts(parts@);
        proof {
            assert(all.skip(0) =~= all);
        }
        let absolute = text_from(&parts, 0);
        let below: usize = if first.len() < parts.len() && begins_with(&parts, &first) {
            first.len()
        } else {
            0
        };
        let relative = text_from(&parts, below);
        proof {
            if below == 0 && first@.len() < parts@.len() && all.take(first@.len() as int) == texts(first@) {
                assert(first@.len() == 0);
            }
        }
        NormalPath::new(FilePath::new(absolute), FilePath::new(relative))
    }
}

/// A name stays, a `.` does not, and a `..` takes back the name before it, but never the root.
pub proof fn dots_are_taken_back(parts: Seq<Seq<char>>, name: Seq<char>)
    requires
        name != seq!['/'],
        name != seq!['.'],
        name != seq!['.', '.'],
    ensures
        cleaned(seq![]).len() == 0,
        cleaned(parts.push(name)) == cleaned(parts).push(name),
        cleaned(parts.push(seq!['/'])) == cleaned(parts).push(seq!['/']),
        cleaned(parts.push(seq!['.'])) == cleaned(parts),
        cleaned(parts.push(name).push(seq!['.', '.'])) == cleaned(parts),
        cleaned(seq![seq!['/'], seq!['.', '.']]) == seq![seq!['/']],
        cleaned(seq![seq!['.', '.']]).len() == 0,
{
    assert(seq!['/'][0] != seq!['.'][0]);
    assert(seq!['/'].len() != seq!['.', '.'].len());
    assert(seq!['.'].len() != seq!['.', '.'].len());
    assert(parts.push(name).drop_last() =~= parts);
    assert(parts.push(seq!['/']).drop_last() =~= parts);
    assert(parts.push(seq!['.']).drop_last() =~= parts);
    let dots = seq!['.', '.'];
    let named = parts.push(name);
    assert(named.push(dots).drop_last() =~= named);
    assert(named.push(dots).last() == dots);
    assert(dots[0] == '.' && dots.len() == 2);
    assert(part_rank(dots) == 2);
    assert(part_rank(name) == 3);
    assert(cleaned(named) == cleaned(parts).push(name));
    assert(cleaned(named).last() == name);
    assert(cleaned(parts).push(name).drop_last() =~= cleaned(parts));
    let empty = Seq::<Seq<char>>::empty();
    let root = empty.push(seq!['/']);
    assert(root.drop_last() =~= empty);
    assert(root.last() == seq!['/']);
    assert(cleaned(empty) =~= empty);
    assert(cleaned(root) =~= empty.push(seq!['/']));
    assert(cleaned(root) =~= seq![seq!['/']]);
    let up = root.push(seq!['.', '.']);
    assert(up =~= seq![seq!['/'], seq!['.', '.']]);
    assert(up.drop_last() =~= root);
    assert(seq![seq!['.', '.']].drop_last() =~= empty);
}

/// An absolute path is the same from every directory; a relative one starts at the directory.
pub proof fn absolute_paths_stay(directory: Seq<char>, other: Seq<char>, path: Seq<char>)
    ensures
        path.len() > 0 && path[0] == '/' ==> placed(directory, path) == path && normal(directory, path).absolute == normal(
            other,
            path,
        ).absolute,
        directory.len() > 0 && (path.len() == 0 || path[0] != '/') ==> placed(directory, path) == directory + seq!['/'] + path,
{
}

/// A path below the directory is shown by the components below it; any other one is shown as it is.
pub proof fn paths_below_are_shown_relative(directory: Seq<char>, path: Seq<char>, rest: Seq<Seq<char>>)
    ensures
        ({
            let parts = cleaned(path_parts(placed(directory, path)));
            let first = path_parts(directory);
            &&& normal(directory, path).absolute == path_text(parts)
            &&& rest.len() > 0 && parts == first + rest ==> normal(directory, path).relative == path_text(rest)
            &&& (forall|tail: Seq<Seq<char>>| tail.len() > 0 ==> parts != #[trigger] (first + tail)) ==> normal(
                directory,
                path,
            ).relative == path_text(parts)
        }),
{
    let parts = cleaned(path_parts(placed(directory, path)));
    let first = path_parts(directory);
    if rest.len() > 0 && parts == first + rest {
        assert(parts.take(first.len() as int) =~= first);
        assert(parts.skip(first.len() as int) =~= rest);
    }
    if first.len() < parts.len() && parts.take(first.len() as int) == first {
        let tail = parts.skip(first.len() as int);
        assert(parts =~= first + tail);
    }
}

/// The text of a path has a slash between its components, and begins with one exactly if it begins at the root.
pub proof fn components_are_joined_by_slashes(parts: Seq<Seq<char>>, name: Seq<char>)
    requires
        name != seq!['/'],
    ensures
        path_text(seq![seq!['/']] + parts) == seq!['/'] + joined(parts, "/"@),
        path_text(seq![name] + parts) == joined(seq![name] + parts, "/"@),
        path_text(seq![name]) == name,
        path_text(seq![seq!['/'], name]) == seq!['/'] + name,
{
    let rooted = seq![seq!['/']] + parts;
    assert(rooted[0] == seq!['/']);
    assert(rooted.skip(1) =~= parts);
    assert((seq![name] + parts)[0] == name);
    separators_stand_between_texts(seq![], name, "/"@);
    assert(seq![name][0] == name);
    let one = seq![seq!['/'], name];
    assert(one[0] == seq!['/']);
    assert(one.skip(1) =~= seq![name]);
}

} // verus!
