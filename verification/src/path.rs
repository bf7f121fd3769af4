//! File paths: what makes two of them the same path, and how they are ordered.

use crate::text::{find_char, lemma_find_char, texts, to_chars};
use vstd::prelude::*;

verus! {

broadcast use vstd::string::group_string_axioms;

/// The texts between the slashes of `s`, of which there is always one.
pub open spec fn pieces(s: Seq<char>) -> Seq<Seq<char>>
    decreases s.len(),
    via pieces_decreases
{
    let k = find_char(s, '/');
    if k < s.len() {
        seq![s.take(k)] + pieces(s.skip(k + 1))
    } else {
        seq![s]
    }
}

#[via_fn]
proof fn pieces_decreases(s: Seq<char>) {
    lemma_find_char(s, '/');
}

/// The components of a path. Repeated and trailing slashes do not count, nor does a `.` that is
/// not the first component of a relative path. The root of an absolute path is its first component.
pub open spec fn path_parts(s: Seq<char>) -> Seq<Seq<char>> {
    let names = pieces(s).filter(|p: Seq<char>| p.len() > 0 && p != seq!['.']);
    if s.len() > 0 && s[0] == '/' {
        seq![seq!['/']] + names
    } else if pieces(s)[0] == seq!['.'] {
        seq![seq!['.']] + names
    } else {
        names
    }
}

/// Whether a component names a file or directory: it is not the root, `.` or `..`.
pub open spec fn is_normal(part: Seq<char>) -> bool {
    part != seq!['/'] && part != seq!['.'] && part != seq!['.', '.']
}

/// The last component of a path, if it names a file or directory.
pub open spec fn file_name_of(s: Seq<char>) -> Option<Seq<char>> {
    let parts = path_parts(s);
    if parts.len() > 0 && is_normal(parts.last()) {
        Some(parts.last())
    } else {
        None
    }
}

/// Calls `camino::Utf8Path::components` and takes the text of each component. On Unix it yields the
/// root of an absolute path, then each name between slashes, without empty names and without `.`
/// anywhere but at the start of a relative path.
#[verifier::external_body]
pub(crate) fn components(path: &str) -> (r: Vec<String>)
    ensures
        texts(r@) == path_parts(path@),
{
    camino::Utf8Path::new(path).components().map(|part| part.as_str().to_owned()).collect()
}

/// The text of a path without its last component, if it has one that is not its root.
pub uninterp spec fn parent_of(path: Seq<char>) -> Option<Seq<char>>;

/// Calls `camino::Utf8Path::parent`: the path without its last component, or nothing for a path
/// that ends in its root or has no component.
#[verifier::external_body]
fn parent_text(path: &str) -> (r: Option<String>)
    ensures
        match r {
            Some(parent) => parent_of(path@) == Some(parent@) && path_parts(path@).len() > 0
                && path_parts(path@).last() != seq!['/'] && path_parts(parent@) == path_parts(
                path@,
            ).drop_last(),
            None => parent_of(path@) is None && (path_parts(path@).len() == 0 || path_parts(path@).last()
                == seq!['/']),
        },
{
    camino::Utf8Path::new(path).parent().map(|parent| parent.as_str().to_owned())
}

/// Whether `a` comes before `b` when texts are ordered character by character.
pub open spec fn text_less(a: Seq<char>, b: Seq<char>) -> bool
    decreases a.len(),
{
    if b.len() == 0 {
        false
    } else if a.len() == 0 {
        true
    } else if a[0] == b[0] {
        text_less(a.skip(1), b.skip(1))
    } else {
        (a[0] as int) < (b[0] as int)
    }
}

/// The place of a component among the kinds of components: the root, `.`, `..`, then names.
pub open spec fn part_rank(part: Seq<char>) -> int {
    if part == seq!['/'] {
        0
    } else if part == seq!['.'] {
        1
    } else if part == seq!['.', '.'] {
        2
    } else {
        3
    }
}

/// Whether component `a` comes before component `b`.
pub open spec fn part_less(a: Seq<char>, b: Seq<char>) -> bool {
    part_rank(a) < part_rank(b) || (part_rank(a) == part_rank(b) && part_rank(a) == 3 && text_less(
        a,
        b,
    ))
}

/// Whether the path with components `a` comes before the one with components `b`.
pub open spec fn parts_less(a: Seq<Seq<char>>, b: Seq<Seq<char>>) -> bool
    decreases a.len(),
{
    if b.len() == 0 {
        false
    } else if a.len() == 0 {
        true
    } else if a[0] == b[0] {
        parts_less(a.skip(1), b.skip(1))
    } else {
        part_less(a[0], b[0])
    }
}

proof fn lemma_text_total(a: Seq<char>, b: Seq<char>)
    ensures
        !(text_less(a, b) && text_less(b, a)),
        text_less(a, b) || text_less(b, a) || a == b,
        a == b ==> !text_less(a, b),
    decreases a.len(),
{
    if a.len() == 0 || b.len() == 0 {
        if a.len() == 0 && b.len() == 0 {
            assert(a =~= b);
        }
    } else {
        lemma_text_total(a.skip(1), b.skip(1));
        if a[0] == b[0] && a.skip(1) == b.skip(1) {
            assert(a =~= seq![a[0]] + a.skip(1));
            assert(b =~= seq![b[0]] + b.skip(1));
        }
    }
}

proof fn lemma_text_transitive(a: Seq<char>, b: Seq<char>, c: Seq<char>)
    requires
        text_less(a, b),
        text_less(b, c),
    ensures
        text_less(a, c),
    decreases a.len(),
{
    if a.len() > 0 && b.len() > 0 && c.len() > 0 && a[0] == b[0] && b[0] == c[0] {
        lemma_text_transitive(a.skip(1), b.skip(1), c.skip(1));
    }
}

proof fn lemma_part_total(a: Seq<char>, b: Seq<char>)
    ensures
        !(part_less(a, b) && part_less(b, a)),
        part_less(a, b) || part_less(b, a) || a == b,
        a == b ==> !part_less(a, b),
{
    lemma_text_total(a, b);
}

proof fn lemma_part_transitive(a: Seq<char>, b: Seq<char>, c: Seq<char>)
    requires
        part_less(a, b),
        part_less(b, c),
    ensures
        part_less(a, c),
{
    if part_rank(a) == 3 && part_rank(b) == 3 && part_rank(c) == 3 {
        lemma_text_transitive(a, b, c);
    }
}

/// Of two paths either one comes first or they are the same path.
pub proof fn lemma_parts_total(a: Seq<Seq<char>>, b: Seq<Seq<char>>)
    ensures
        !(parts_less(a, b) && parts_less(b, a)),
        parts_less(a, b) || parts_less(b, a) || a == b,
        a == b ==> !parts_less(a, b),
    decreases a.len(),
{
    if a.len() == 0 || b.len() == 0 {
        if a.len() == 0 && b.len() == 0 {
            assert(a =~= b);
        }
    } else {
        lemma_parts_total(a.skip(1), b.skip(1));
        lemma_part_total(a[0], b[0]);
        if a[0] == b[0] && a.skip(1) == b.skip(1) {
            assert(a =~= seq![a[0]] + a.skip(1));
            assert(b =~= seq![b[0]] + b.skip(1));
        }
    }
}

/// The order of paths is transitive.
pub proof fn lemma_parts_transitive(a: Seq<Seq<char>>, b: Seq<Seq<char>>, c: Seq<Seq<char>>)
    requires
        parts_less(a, b),
        parts_less(b, c),
    ensures
        parts_less(a, c),
    decreases a.len(),
{
    if a.len() > 0 && b.len() > 0 && c.len() > 0 {
        if a[0] == b[0] && b[0] == c[0] {
            lemma_parts_transitive(a.skip(1), b.skip(1), c.skip(1));
        } else if a[0] != b[0] && b[0] != c[0] {
            lemma_part_transitive(a[0], b[0], c[0]);
            lemma_part_total(a[0], c[0]);
        }
    }
}

/// How two values stand in an order.
#[derive(Clone, Copy, Debug, PartialEq, Eq)]
pub enum Rank {
    /// The first comes before the second.
    Before,
    /// They are the same.
    Same,
    /// The first comes after the second.
    After,
}

fn rank_texts(a: &str, b: &str) -> (r: Rank)
    ensures
        r == (if text_less(a@, b@) {
            Rank::Before
        } else if a@ == b@ {
            Rank::Same
        } else {
            Rank::After
        }),
{
    let x = to_chars(a);
    let y = to_chars(b);
    let mut i: usize = 0;
    proof {
        lemma_text_total(a@, b@);
        assert(x@.skip(0) =~= x@);
        assert(y@.skip(0) =~= y@);
    }
    while i < x.len() && i < y.len() && x[i] == y[i]
        invariant
            i <= x@.len(),
            i <= y@.len(),
            x@.take(i as int) == y@.take(i as int),
            text_less(x@, y@) == text_less(x@.skip(i as int), y@.skip(i as int)),
        decreases x@.len() - i,
    {
        i = i + 1;
        proof {
            assert(x@.skip(i - 1).skip(1) =~= x@.skip(i as int));
            assert(y@.skip(i - 1).skip(1) =~= y@.skip(i as int));
            assert(x@.take(i as int) =~= x@.take(i - 1).push(x@[i - 1]));
            assert(y@.take(i as int) =~= y@.take(i - 1).push(y@[i - 1]));
        }
    }
    proof {
        assert(x@.take(x@.len() as int) =~= x@);
        assert(y@.take(y@.len() as int) =~= y@);
    }
    if i == y.len() {
        if i == x.len() {
            Rank::Same
        } else {
            Rank::After
        }
    } else if i == x.len() {
        Rank::Before
    } else if x[i] < y[i] {
        proof {
            assert(x@.skip(i as int)[0] == x@[i as int]);
        }
        Rank::Before
    } else {
        proof {
            assert(x@.skip(i as int)[0] == x@[i as int]);
            assert(y@.skip(i as int)[0] == y@[i as int]);
        }
        Rank::After
    }
}

pub(crate) fn rank_of_part(part: &str) -> (r: u8)
    ensures
        r == part_rank(part@),
{
    let v = to_chars(part);
    proof {
        if v@.len() == 1 {
            assert(v@ =~= seq![v@[0]]);
        }
        if v@.len() == 2 {
            assert(v@ =~= seq![v@[0], v@[1]]);
        }
    }
    if v.len() == 1 && v[0] == '/' {
        0
    } else if v.len() == 1 && v[0] == '.' {
        1
    } else if v.len() == 2 && v[0] == '.' && v[1] == '.' {
        2
    } else {
        3
    }
}

fn rank_parts(a: &str, b: &str) -> (r: Rank)
    ensures
        r == (if part_less(a@, b@) {
            Rank::Before
        } else if a@ == b@ {
            Rank::Same
        } else {
            Rank::After
        }),
{
    let x = rank_of_part(a);
    let y = rank_of_part(b);
    if x < y {
        Rank::Before
    } else if x > y {
        Rank::After
    } else if x < 3 {
        Rank::Same
    } else {
        rank_texts(a, b)
    }
}

/// A UTF-8 file path.
#[derive(Debug)]
pub struct FilePath {
    text: String,
}

impl View for FilePath {
    type V = Seq<char>;

    closed spec fn view(&self) -> Seq<char> {
        self.text@
    }
}

impl Clone for FilePath {
    fn clone(&self) -> (r: Self)
        ensures
            r == *self,
    {
        FilePath { text: self.text.clone() }
    }
}

impl PartialEq for FilePath {
    fn eq(&self, other: &Self) -> (r: bool) {
        proof {
            lemma_parts_total(path_parts(self@), path_parts(other@));
        }
        match self.rank(other) {
            Rank::Same => true,
            _ => false,
        }
    }
}

impl vstd::std_specs::cmp::PartialEqSpecImpl for FilePath {
    open spec fn obeys_eq_spec() -> bool {
        true
    }

    open spec fn eq_spec(&self, other: &Self) -> bool {
        path_parts(self@) == path_parts(other@)
    }
}

impl Eq for FilePath {

}

impl FilePath {
    /// The path with this text.
    pub fn new(text: String) -> (r: Self)
        ensures
            r@ == text@,
    {
        FilePath { text }
    }

    /// The text of the path.
    pub fn as_str(&self) -> (r: &str)
        ensures
            r@ == self@,
    {
        self.text.as_str()
    }

    /// How two paths stand in the order of paths; the same path is one with the same components.
    pub fn rank(&self, other: &FilePath) -> (r: Rank)
        ensures
            r == (if parts_less(path_parts(self@), path_parts(other@)) {
                Rank::Before
            } else if path_parts(self@) == path_parts(other@) {
                Rank::Same
            } else {
                Rank::After
            }),
    {
        let a = components(self.text.as_str());
        let b = components(other.text.as_str());
        let ghost x = texts(a@);
        let ghost y = texts(b@);
        let mut i: usize = 0;
        proof {
            lemma_parts_total(x, y);
            assert(x.skip(0) =~= x);
            assert(y.skip(0) =~= y);
        }
        while i < a.len() && i < b.len()
            invariant
                i <= a@.len(),
                i <= b@.len(),
                x == texts(a@),
                y == texts(b@),
                x == path_parts(self@),
                y == path_parts(other@),
                x.take(i as int) == y.take(i as int),
                parts_less(x, y) == parts_less(x.skip(i as int), y.skip(i as int)),
            decreases a@.len() - i,
        {
            let r = rank_parts(a[i].as_str(), b[i].as_str());
            proof {
                assert(x.skip(i as int)[0] == x[i as int]);
                assert(y.skip(i as int)[0] == y[i as int]);
                lemma_part_total(x[i as int], y[i as int]);
            }
            match r {
                Rank::Same => {},
                _ => {
                    return r;
                },
            }
            i = i + 1;
            proof {
                assert(x.skip(i - 1).skip(1) =~= x.skip(i as int));
                assert(y.skip(i - 1).skip(1) =~= y.skip(i as int));
                assert(x.take(i as int) =~= x.take(i - 1).push(x[i - 1]));
                assert(y.take(i as int) =~= y.take(i - 1).push(y[i - 1]));
            }
        }
        proof {
            assert(x.take(x.len() as int) =~= x);
            assert(y.take(y.len() as int) =~= y);
        }
        if i == b.len() {
            if i == a.len() {
                Rank::Same
            } else {
                Rank::After
            }
        } else {
            Rank::Before
        }
    }

    /// Whether `base` is this path or one of the directories that it lies under.
    pub fn starts_with(&self, base: &FilePath) -> (r: bool)
        ensures
            r == starts_with(self@, base@),
    {
        let a = components(self.text.as_str());
        let b = components(base.text.as_str());
        let ghost x = texts(a@);
        let ghost y = texts(b@);
        if b.len() > a.len() {
            return false;
        }
        let mut i: usize = 0;
        while i < b.len()
            invariant
                i <= b@.len() <= a@.len(),
                x == texts(a@),
                y == texts(b@),
                x == path_parts(self@),
                y == path_parts(base@),
                forall|k: int| 0 <= k < i ==> x[k] == y[k],
            decreases b@.len() - i,
        {
            if a[i] != b[i] {
                proof {
                    assert(x[i as int] != y[i as int]);
                    assert(x.take(y.len() as int)[i as int] == x[i as int]);
                }
                return false;
            }
            i = i + 1;
        }
        proof {
            assert(x.take(y.len() as int) =~= y);
        }
        true
    }

    /// The name of the file or directory that the path leads to.
    pub fn file_name(&self) -> (r: Option<String>)
        ensures
            match r {
                Some(name) => file_name_of(self@) == Some(name@),
                None => file_name_of(self@) is None,
            },
    {
        let mut parts = components(self.text.as_str());
        let ghost all = texts(parts@);
        match parts.pop() {
            Some(last) => {
                proof {
                    assert(all.last() == last@);
                }
                if rank_of_part(last.as_str()) == 3 {
                    Some(last)
                } else {
                    None
                }
            },
            None => None,
        }
    }

    /// The path without its last component.
    pub fn parent(&self) -> (r: Option<FilePath>)
        ensures
            match r {
                Some(parent) => parent_of(self@) == Some(parent@) && path_parts(self@).len() > 0 && path_parts(self@).last() != seq!['/']
                    && path_parts(parent@) == path_parts(self@).drop_last(),
                None => parent_of(self@) is None && (path_parts(self@).len() == 0 || path_parts(self@).last()
                    == seq!['/']),
            },
    {
        match parent_text(self.text.as_str()) {
            Some(text) => Some(FilePath { text }),
            None => None,
        }
    }
}

/// A path in a normal form: an absolute path without redundant components, by which it is known,
/// and the path relative to the working directory, by which it is shown.
#[derive(Debug)]
pub struct NormalPath {
    absolute: FilePath,
    relative: FilePath,
}

/// The model of a [`NormalPath`].
pub struct NormalPathView {
    pub absolute: Seq<char>,
    pub relative: Seq<char>,
}

impl View for NormalPath {
    type V = NormalPathView;

    closed spec fn view(&self) -> NormalPathView {
        NormalPathView { absolute: self.absolute@, relative: self.relative@ }
    }
}

impl Clone for NormalPath {
    fn clone(&self) -> (r: Self)
        ensures
            r@ == self@,
    {
        NormalPath { absolute: self.absolute.clone(), relative: self.relative.clone() }
    }
}

impl NormalPath {
    /// The path with these forms.
    pub fn new(absolute: FilePath, relative: FilePath) -> (r: Self)
        ensures
            r@ == (NormalPathView { absolute: absolute@, relative: relative@ }),
    {
        NormalPath { absolute, relative }
    }

    /// The absolute path.
    pub fn absolute(&self) -> (r: &FilePath)
        ensures
            r@ == self@.absolute,
    {
        &self.absolute
    }

    /// The path relative to the working directory.
    pub fn relative(&self) -> (r: &FilePath)
        ensures
            r@ == self@.relative,
    {
        &self.relative
    }
}

/// Whether the components of `base` are the first components of `path`.
pub open spec fn starts_with(path: Seq<char>, base: Seq<char>) -> bool {
    let parts = path_parts(path);
    let first = path_parts(base);
    first.len() <= parts.len() && parts.take(first.len() as int) == first
}

/// Texts are ordered by the first character in which they differ; a text comes before any that it begins.
pub proof fn texts_are_ordered_by_the_first_difference(
    start: Seq<char>,
    a: char,
    b: char,
    s: Seq<char>,
    t: Seq<char>,
)
    requires
        a != b,
    ensures
        text_less(start + seq![a] + s, start + seq![b] + t) <==> (a as int) < (b as int),
        text_less(start, start + seq![a] + s),
        !text_less(start + seq![a] + s, start),
    decreases start.len(),
{
    let x = start + seq![a] + s;
    let y = start + seq![b] + t;
    if start.len() == 0 {
        assert(x[0] == a && y[0] == b);
    } else {
        let rest = start.skip(1);
        texts_are_ordered_by_the_first_difference(rest, a, b, s, t);
        assert(x[0] == start[0] && y[0] == start[0]);
        assert(x.skip(1) =~= rest + seq![a] + s);
        assert(y.skip(1) =~= rest + seq![b] + t);
    }
}

/// Paths are ordered by the first component in which they differ; a directory comes before what lies below it.
pub proof fn paths_are_ordered_by_the_first_difference(
    start: Seq<Seq<char>>,
    a: Seq<char>,
    b: Seq<char>,
    s: Seq<Seq<char>>,
    t: Seq<Seq<char>>,
)
    requires
        a != b,
        is_normal(a),
        is_normal(b),
    ensures
        parts_less(start + seq![a] + s, start + seq![b] + t) <==> text_less(a, b),
        parts_less(start, start + seq![a] + s),
        !parts_less(start + seq![a] + s, start),
    decreases start.len(),
{
    let x = start + seq![a] + s;
    let y = start + seq![b] + t;
    if start.len() == 0 {
        assert(x[0] == a && y[0] == b);
    } else {
        let rest = start.skip(1);
        paths_are_ordered_by_the_first_difference(rest, a, b, s, t);
        assert(x[0] == start[0] && y[0] == start[0]);
        assert(x.skip(1) =~= rest + seq![a] + s);
        assert(y.skip(1) =~= rest + seq![b] + t);
    }
}

/// The name of a file is the last component of its path, unless that is the root, `.` or `..`.
pub proof fn names_are_last_components(path: Seq<char>)
    ensures
        file_name_of(path) is Some <==> path_parts(path).len() > 0 && path_parts(path).last() != seq!['/'] && path_parts(
            path,
        ).last() != seq!['.'] && path_parts(path).last() != seq!['.', '.'],
        file_name_of(path) is Some ==> file_name_of(path)->0 == path_parts(path).last(),
{
}

/// A path starts with another exactly if its components are those of the other and some more, or none.
pub proof fn prefixes_are_whole_components(path: Seq<char>, base: Seq<char>, rest: Seq<Seq<char>>)
    ensures
        path_parts(path) == path_parts(base) + rest ==> starts_with(path, base),
        starts_with(path, base) ==> path_parts(path) == path_parts(base) + path_parts(path).skip(
            path_parts(base).len() as int,
        ),
        starts_with(path, path),
{
    let parts = path_parts(path);
    let first = path_parts(base);
    assert(parts.take(parts.len() as int) =~= parts);
    if parts == first + rest {
        assert(parts.take(first.len() as int) =~= first);
    }
    if starts_with(path, base) {
        assert(parts =~= first + parts.skip(first.len() as int));
    }
}

} // verus!
