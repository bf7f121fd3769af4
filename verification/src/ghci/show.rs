//! What a session shows of its search paths and targets, and how modules are named after their
//! sources.

use crate::haskell_source_file::{haskell_source, is_haskell_source_file, last_index, last_position};
use crate::normal_path::{begins_with, texts_from};
use crate::path::{components, path_parts, FilePath, NormalPath, NormalPathView};
use crate::sorted::views;
use crate::text::{
    from_chars, has_prefix, join, joined, lines, same_text, split_lines, strip_prefix, texts, to_chars, trim, trimmed,
};
use vstd::prelude::*;

verus! {

/// The lines that are not blank, without the white space around them.
pub open spec fn entries(ls: Seq<Seq<char>>) -> Seq<Seq<char>>
    decreases ls.len(),
{
    if ls.len() == 0 {
        seq![]
    } else if trimmed(ls.last()).len() == 0 {
        entries(ls.drop_last())
    } else {
        entries(ls.drop_last()).push(trimmed(ls.last()))
    }
}

fn entries_of(text: &str) -> (r: Vec<String>)
    ensures
        texts(r@) == entries(lines(text@)),
{
    let all = split_lines(text);
    let ghost ls = texts(all@);
    let mut r: Vec<String> = Vec::new();
    let mut i: usize = 0;
    proof {
        assert(texts(r@) =~= entries(ls.take(0)));
    }
    while i < all.len()
        invariant
            i <= all@.len(),
            ls == texts(all@),
            texts(r@) == entries(ls.take(i as int)),
        decreases all@.len() - i,
    {
        let ghost before = texts(r@);
        let entry = trim(all[i].as_str());
        proof {
            assert(ls.take(i + 1).drop_last() =~= ls.take(i as int));
            assert(ls.take(i + 1).last() == all@[i as int]@);
        }
        if entry.as_str().unicode_len() > 0 {
            let ghost e = entry@;
            r.push(entry);
            proof {
                assert(texts(r@) =~= before.push(e));
            }
        }
        i = i + 1;
    }
    proof {
        assert(ls.take(ls.len() as int) =~= ls);
    }
    r
}

/// The working directory and the search paths that these lines show, each group after its headline.
pub open spec fn shown_paths(es: Seq<Seq<char>>) -> Option<(Seq<char>, Seq<Seq<char>>)> {
    if es.len() >= 3 && es[0] == "current working directory:"@ && es[2] == "module import search paths:"@ {
        Some((es[1], es.skip(3)))
    } else {
        None
    }
}

/// Reads the working directory and the search paths from what `:show paths` prints.
pub fn parse_show_paths(text: &str) -> (r: Option<(String, Vec<String>)>)
    ensures
        match r {
            Some((cwd, search_paths)) => shown_paths(entries(lines(text@))) == Some((cwd@, texts(search_paths@))),
            None => shown_paths(entries(lines(text@))) is None,
        },
{
    let es = entries_of(text);
    if es.len() >= 3 {
        proof {
            assert(texts(es@)[0] == es@[0]@);
            assert(texts(es@)[1] == es@[1]@);
            assert(texts(es@)[2] == es@[2]@);
        }
        if same_text(es[0].as_str(), "current working directory:") && same_text(
            es[2].as_str(),
            "module import search paths:",
        ) {
            return Some((es[1].clone(), texts_from(&es, 3)));
        }
    }
    None
}

/// A target as it is known: one that is interpreted is shown with a `*` before it.
pub open spec fn target_name(entry: Seq<char>) -> Seq<char> {
    if has_prefix(entry, "*"@) {
        entry.skip(1)
    } else {
        entry
    }
}

/// Reads the targets from what `:show targets` prints, one to a line.
pub fn parse_show_targets(text: &str) -> (r: Vec<String>)
    ensures
        texts(r@) == entries(lines(text@)).map_values(|entry: Seq<char>| target_name(entry)),
{
    let es = entries_of(text);
    let ghost all = texts(es@);
    let mut r: Vec<String> = Vec::new();
    let mut i: usize = 0;
    proof {
        reveal_strlit("*");
    }
    while i < es.len()
        invariant
            i <= es@.len(),
            all == texts(es@),
            "*"@.len() == 1,
            texts(r@) =~= all.take(i as int).map_values(|entry: Seq<char>| target_name(entry)),
        decreases es@.len() - i,
    {
        let ghost before = texts(r@);
        match strip_prefix(es[i].as_str(), "*") {
            Some(rest) => r.push(rest),
            None => r.push(es[i].clone()),
        }
        proof {
            assert(texts(r@) =~= before.push(target_name(all[i as int])));
        }
        i = i + 1;
    }
    proof {
        assert(all.take(all.len() as int) =~= all);
    }
    r
}

/// A module name with its dots as slashes.
pub open spec fn slashed(name: Seq<char>) -> Seq<char> {
    name.map_values(
        |c: char|
            if c == '.' {
                '/'
            } else {
                c
            },
    )
}

/// The sources that a module with this name may have in a directory.
pub open spec fn sources_in(directory: Seq<char>, name: Seq<char>) -> Seq<Seq<char>> {
    let stem = directory + "/"@ + slashed(name);
    seq![stem + ".hs"@, stem + ".lhs"@]
}

/// The sources that a module with this name may have in the search paths, in order.
pub open spec fn candidates(search_paths: Seq<Seq<char>>, name: Seq<char>) -> Seq<Seq<char>>
    decreases search_paths.len(),
{
    if search_paths.len() == 0 {
        seq![]
    } else {
        candidates(search_paths.drop_last(), name) + sources_in(search_paths.last(), name)
    }
}

fn slash(name: &str) -> (r: String)
    ensures
        r@ == slashed(name@),
{
    let v = to_chars(name);
    let mut r = String::new();
    let mut i: usize = 0;
    proof {
        assert(r@ =~= slashed(v@.take(0)));
    }
    while i < v.len()
        invariant
            i <= v@.len(),
            r@ == slashed(v@.take(i as int)),
        decreases v@.len() - i,
    {
        let ghost before = r@;
        let c = if v[i] == '.' {
            '/'
        } else {
            v[i]
        };
        r.push(c);
        proof {
            assert(slashed(v@.take(i + 1)) =~= before.push(c));
        }
        i = i + 1;
    }
    proof {
        assert(v@.take(v@.len() as int) =~= v@);
    }
    r
}

fn source_in(directory: &str, stem: &str, extension: &str) -> (r: FilePath)
    ensures
        r@ == directory@ + "/"@ + stem@ + extension@,
{
    let mut text = directory.to_owned();
    text.append("/");
    text.append(stem);
    text.append(extension);
    FilePath::new(text)
}

/// The paths at which the source of a target may stand: a target that is a source stands where it says,
/// and one that is a module name in one of the search paths.
pub fn target_paths(target: &FilePath, search_paths: &Vec<FilePath>) -> (r: Vec<FilePath>)
    ensures
        views(r@) == (if haskell_source(target@) {
            seq![target@]
        } else {
            candidates(views(search_paths@), target@)
        }),
{
    let mut r: Vec<FilePath> = Vec::new();
    if is_haskell_source_file(target) {
        r.push(target.clone());
        proof {
            assert(views(r@) =~= seq![target@]);
        }
        return r;
    }
    let stem = slash(target.as_str());
    let ghost dirs = views(search_paths@);
    let mut i: usize = 0;
    proof {
        assert(views(r@) =~= candidates(dirs.take(0), target@));
    }
    while i < search_paths.len()
        invariant
            i <= search_paths@.len(),
            dirs == views(search_paths@),
            stem@ == slashed(target@),
            views(r@) == candidates(dirs.take(i as int), target@),
        decreases search_paths@.len() - i,
    {
        let ghost before = views(r@);
        r.push(source_in(search_paths[i].as_str(), stem.as_str(), ".hs"));
        r.push(source_in(search_paths[i].as_str(), stem.as_str(), ".lhs"));
        proof {
            assert(dirs.take(i + 1).drop_last() =~= dirs.take(i as int));
            assert(dirs.take(i + 1).last() == search_paths@[i as int]@);
            assert(views(r@) =~= before + sources_in(search_paths@[i as int]@, target@));
        }
        i = i + 1;
    }
    proof {
        assert(dirs.take(dirs.len() as int) =~= dirs);
    }
    r
}

/// The components with the extension taken from the last one.
pub open spec fn stemmed(parts: Seq<Seq<char>>) -> Seq<Seq<char>> {
    parts.drop_last().push(parts.last().take(last_index(parts.last(), '.')))
}

/// The name of the module at a path, if that lies below the directory.
pub open spec fn module_in(directory: Seq<char>, path: Seq<char>) -> Option<Seq<char>> {
    let first = path_parts(directory);
    let parts = path_parts(path);
    if haskell_source(path) && first.len() < parts.len() && parts.take(first.len() as int) == first {
        Some(joined(stemmed(parts.skip(first.len() as int)), "."@))
    } else {
        None
    }
}

/// The name of the module at a path, by the first search path that it lies below.
pub open spec fn module_at(search_paths: Seq<Seq<char>>, path: Seq<char>) -> Option<Seq<char>>
    decreases search_paths.len(),
{
    if search_paths.len() == 0 {
        None
    } else {
        match module_in(search_paths[0], path) {
            Some(name) => Some(name),
            None => module_at(search_paths.skip(1), path),
        }
    }
}

fn name_in(directory: &FilePath, path: &FilePath) -> (r: Option<String>)
    ensures
        match r {
            Some(name) => module_in(directory@, path@) == Some(name@),
            None => module_in(directory@, path@) is None,
        },
{
    if !is_haskell_source_file(path) {
        return None;
    }
    let first = components(directory.as_str());
    let parts = components(path.as_str());
    if first.len() >= parts.len() || !begins_with(&parts, &first) {
        return None;
    }
    let mut rest = texts_from(&parts, first.len());
    let ghost all = texts(rest@);
    match rest.pop() {
        Some(last) => {
            proof {
                assert(all.last() == last@);
                assert(all.last() == path_parts(path@).last());
                assert(texts(rest@) =~= all.drop_last());
            }
            let v = to_chars(last.as_str());
            match last_position(&v, '.') {
                Some(dot) => {
                    let ghost before = texts(rest@);
                    let stem = from_chars(&v, 0, dot);
                    proof {
                        assert(v@.subrange(0, dot as int) =~= v@.take(dot as int));
                    }
                    rest.push(stem);
                    proof {
                        assert(texts(rest@) =~= before.push(stem@));
                        assert(texts(rest@) == stemmed(all));
                    }
                    Some(join(&rest, "."))
                },
                None => None,
            }
        },
        None => None,
    }
}

/// The name of the module at a path, if it lies below a search path.
pub fn path_to_module(search_paths: &Vec<FilePath>, path: &FilePath) -> (r: Option<String>)
    ensures
        match r {
            Some(name) => module_at(views(search_paths@), path@) == Some(name@),
            None => module_at(views(search_paths@), path@) is None,
        },
{
    let ghost dirs = views(search_paths@);
    let mut i: usize = 0;
    proof {
        assert(dirs.skip(0) =~= dirs);
    }
    while i < search_paths.len()
        invariant
            i <= search_paths@.len(),
            dirs == views(search_paths@),
            module_at(dirs, path@) == module_at(dirs.skip(i as int), path@),
        decreases search_paths@.len() - i,
    {
        proof {
            assert(dirs.skip(i as int)[0] == search_paths@[i as int]@);
            assert(dirs.skip(i as int).skip(1) =~= dirs.skip(i + 1));
        }
        match name_in(&search_paths[i], path) {
            Some(name) => {
                return Some(name);
            },
            None => {},
        }
        i = i + 1;
    }
    None
}

/// The paths, each on a line of its own after a bullet.
pub open spec fn bullets(paths: Seq<NormalPathView>) -> Seq<Seq<char>> {
    paths.map_values(|path: NormalPathView| "  • "@ + path.relative)
}

/// Lists the paths, each on a line of its own after a bullet.
pub fn format_bulleted_list(paths: &Vec<NormalPath>) -> (r: String)
    ensures
        r@ == joined(bullets(views(paths@)), "\n"@),
{
    let ghost all = bullets(views(paths@));
    let mut items: Vec<String> = Vec::new();
    let mut i: usize = 0;
    while i < paths.len()
        invariant
            i <= paths@.len(),
            all == bullets(views(paths@)),
            texts(items@) =~= all.take(i as int),
        decreases paths@.len() - i,
    {
        let ghost before = texts(items@);
        let mut item = "  • ".to_owned();
        item.append(paths[i].relative().as_str());
        items.push(item);
        proof {
            assert(texts(items@) =~= before.push(all[i as int]));
            assert(all.take(i + 1) =~= all.take(i as int).push(all[i as int]));
        }
        i = i + 1;
    }
    proof {
        assert(all.take(all.len() as int) =~= all);
    }
    join(&items, "\n")
}

/// Each line that is not blank is an entry, without the white space around it, and the entries keep their order.
pub proof fn lines_are_entries(a: Seq<Seq<char>>, b: Seq<Seq<char>>, line: Seq<char>)
    ensures
        entries(a + b) == entries(a) + entries(b),
        trimmed(line).len() > 0 ==> entries(seq![line]) == seq![trimmed(line)],
        trimmed(line).len() == 0 ==> entries(seq![line]).len() == 0,
        entries(seq![]).len() == 0,
    decreases b.len(),
{
    reveal_with_fuel(entries, 2);
    assert(seq![line].drop_last() =~= seq![]);
    if trimmed(line).len() > 0 {
        assert(entries(seq![line]) =~= seq![trimmed(line)]);
    }
    if b.len() == 0 {
        assert(a + b =~= a);
        assert(entries(a) + entries(b) =~= entries(a));
    } else {
        lines_are_entries(a, b.drop_last(), line);
        assert((a + b).drop_last() =~= a + b.drop_last());
        assert((a + b).last() == b.last());
        assert(entries(a + b) =~= entries(a) + entries(b));
    }
}

/// The working directory and the search paths are read back from what is shown, however many there are; anything without
/// the two headlines is not accepted.
pub proof fn shown_paths_are_read_back(cwd: Seq<char>, paths: Seq<Seq<char>>, es: Seq<Seq<char>>)
    ensures
        shown_paths(seq!["current working directory:"@, cwd, "module import search paths:"@] + paths) == Some((cwd, paths)),
        shown_paths(es) is Some ==> es.len() >= 3 && es[0] == "current working directory:"@ && es[2]
            == "module import search paths:"@,
{
    let all = seq!["current working directory:"@, cwd, "module import search paths:"@] + paths;
    assert(all[0] == "current working directory:"@);
    assert(all[1] == cwd);
    assert(all[2] == "module import search paths:"@);
    assert(all.skip(3) =~= paths);
}

/// The star before an interpreted target is no part of it.
pub proof fn stars_are_no_part_of_targets(name: Seq<char>)
    ensures
        target_name("*"@ + name) == name,
        name.len() == 0 || name[0] != '*' ==> target_name(name) == name,
{
    reveal_strlit("*");
    let shown = "*"@ + name;
    assert(shown.take(1) =~= "*"@);
    assert(shown.skip(1) =~= name);
    if has_prefix(name, "*"@) {
        assert(name.take(1)[0] == "*"@[0]);
    }
}

/// A module is looked for in each directory in order, first as a plain source and then as a literate one, at the path
/// that its name spells.
pub proof fn modules_are_looked_for_in_order(
    a: Seq<Seq<char>>,
    b: Seq<Seq<char>>,
    directory: Seq<char>,
    name: Seq<char>,
    i: int,
)
    ensures
        candidates(a + b, name) == candidates(a, name) + candidates(b, name),
        candidates(seq![directory], name) == seq![
            directory + "/"@ + slashed(name) + ".hs"@,
            directory + "/"@ + slashed(name) + ".lhs"@,
        ],
        candidates(seq![], name).len() == 0,
        slashed(name).len() == name.len(),
        0 <= i < name.len() ==> slashed(name)[i] == (if name[i] == '.' {
            '/'
        } else {
            name[i]
        }),
    decreases b.len(),
{
    reveal_with_fuel(candidates, 2);
    assert(seq![directory].drop_last() =~= seq![]);
    assert(candidates(seq![directory], name) =~= seq![
        directory + "/"@ + slashed(name) + ".hs"@,
        directory + "/"@ + slashed(name) + ".lhs"@,
    ]);
    if b.len() == 0 {
        assert(a + b =~= a);
        assert(candidates(a, name) + candidates(b, name) =~= candidates(a, name));
    } else {
        modules_are_looked_for_in_order(a, b.drop_last(), directory, name, i);
        assert((a + b).drop_last() =~= a + b.drop_last());
        assert((a + b).last() == b.last());
        assert(candidates(a + b, name) =~= candidates(a, name) + candidates(b, name));
    }
}

/// A module is named by the first search path that its source lies below.
pub proof fn first_search_path_names_the_module(search_paths: Seq<Seq<char>>, path: Seq<char>, i: int)
    requires
        0 <= i < search_paths.len(),
        module_in(search_paths[i], path) is Some,
        forall|j: int| 0 <= j < i ==> module_in(#[trigger] search_paths[j], path) is None,
    ensures
        module_at(search_paths, path) == module_in(search_paths[i], path),
    decreases i,
{
    if i > 0 {
        assert(module_in(search_paths[0], path) is None);
        let rest = search_paths.skip(1);
        assert(rest[i - 1] == search_paths[i]);
        assert forall|j: int| 0 <= j < i - 1 implies module_in(#[trigger] rest[j], path) is None by {
            assert(rest[j] == search_paths[j + 1]);
        }
        first_search_path_names_the_module(rest, path, i - 1);
    }
}

/// A source that lies below none of the search paths has no module name, and only sources have one. A name joins the
/// components below the search path, the last without its extension.
pub proof fn only_sources_have_module_names(search_paths: Seq<Seq<char>>, path: Seq<char>, directory: Seq<char>)
    ensures
        (forall|j: int| 0 <= j < search_paths.len() ==> module_in(#[trigger] search_paths[j], path) is None) ==> module_at(
            search_paths,
            path,
        ) is None,
        module_in(directory, path) is Some <==> haskell_source(path) && path_parts(directory).len() < path_parts(
            path,
        ).len() && forall|k: int|
            0 <= k < path_parts(directory).len() ==> path_parts(path)[k] == #[trigger] path_parts(directory)[k],
    decreases search_paths.len(),
{
    let first = path_parts(directory);
    let parts = path_parts(path);
    if first.len() < parts.len() {
        if forall|k: int| 0 <= k < first.len() ==> parts[k] == #[trigger] first[k] {
            assert(parts.take(first.len() as int) =~= first);
        }
        if parts.take(first.len() as int) == first {
            assert forall|k: int| 0 <= k < first.len() implies parts[k] == #[trigger] first[k] by {
                assert(parts.take(first.len() as int)[k] == first[k]);
            }
        }
    }
    if search_paths.len() > 0 && (forall|j: int|
        0 <= j < search_paths.len() ==> module_in(#[trigger] search_paths[j], path) is None) {
        let rest = search_paths.skip(1);
        assert(module_in(search_paths[0], path) is None);
        assert forall|j: int| 0 <= j < rest.len() implies module_in(#[trigger] rest[j], path) is None by {
            assert(rest[j] == search_paths[j + 1]);
        }
        only_sources_have_module_names(rest, path, directory);
    }
}

} // verus!
