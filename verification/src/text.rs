//! Text as sequences of characters: the scanning and formatting that the rest of the library needs.

use vstd::prelude::*;

verus! {

broadcast use vstd::string::group_string_axioms;

/// `String::push` appends one character.
pub assume_specification[ String::push ](s: &mut String, c: char)
    ensures
        final(s)@ == old(s)@.push(c),
;

/// The texts held by a sequence of strings.
pub open spec fn texts(v: Seq<String>) -> Seq<Seq<char>> {
    Seq::new(v.len(), |i: int| v[i]@)
}

/// The characters of `s`.
pub fn to_chars(s: &str) -> (v: Vec<char>)
    ensures
        v@ == s@,
{
    let mut v: Vec<char> = Vec::new();
    for c in it: s.chars()
        invariant
            v@ == s@.take(it.index() as int),
            it.seq() == s@,
    {
        proof {
            assert(s@.take(it.index() + 1) =~= s@.take(it.index() as int).push(c));
        }
        v.push(c);
    }
    proof {
        assert(s@.take(s@.len() as int) =~= s@);
    }
    v
}

/// The string made of the characters `v[from..to]`.
pub fn from_chars(v: &Vec<char>, from: usize, to: usize) -> (s: String)
    requires
        from <= to <= v@.len(),
    ensures
        s@ == v@.subrange(from as int, to as int),
{
    let mut s = String::new();
    let mut i: usize = from;
    while i < to
        invariant
            from <= i <= to <= v@.len(),
            s@ == v@.subrange(from as int, i as int),
        decreases to - i,
    {
        s.push(v[i]);
        i = i + 1;
        proof {
            assert(v@.subrange(from as int, i as int) =~= v@.subrange(from as int, i - 1).push(v@[i - 1]));
        }
    }
    s
}

/// The characters with the Unicode `White_Space` property.
pub open spec fn white_space(c: char) -> bool {
    let n = c as u32;
    ||| 9 <= n <= 13
    ||| n == 0x20
    ||| n == 0x85
    ||| n == 0xa0
    ||| n == 0x1680
    ||| 0x2000 <= n <= 0x200a
    ||| n == 0x2028
    ||| n == 0x2029
    ||| n == 0x202f
    ||| n == 0x205f
    ||| n == 0x3000
}

/// Whether `c` has the Unicode `White_Space` property.
pub fn is_white_space(c: char) -> (r: bool)
    ensures
        r == white_space(c),
{
    let n: u32 = c as u32;
    (9 <= n && n <= 13) || n == 0x20 || n == 0x85 || n == 0xa0 || n == 0x1680 || (0x2000 <= n && n
        <= 0x200a) || n == 0x2028 || n == 0x2029 || n == 0x202f || n == 0x205f || n == 0x3000
}

/// `s` without its leading white space.
pub open spec fn trim_start(s: Seq<char>) -> Seq<char>
    decreases s.len(),
{
    if s.len() > 0 && white_space(s[0]) {
        trim_start(s.skip(1))
    } else {
        s
    }
}

/// `s` without its trailing white space.
pub open spec fn trim_end(s: Seq<char>) -> Seq<char>
    decreases s.len(),
{
    if s.len() > 0 && white_space(s.last()) {
        trim_end(s.drop_last())
    } else {
        s
    }
}

/// `s` without its leading and trailing white space.
pub open spec fn trimmed(s: Seq<char>) -> Seq<char> {
    trim_end(trim_start(s))
}

/// The first position at or after `from` that holds no white space, or the end.
fn skip_white(v: &Vec<char>, from: usize) -> (i: usize)
    requires
        from <= v@.len(),
    ensures
        from <= i <= v@.len(),
        trim_start(v@.skip(from as int)) == v@.skip(i as int),
{
    let mut i: usize = from;
    while i < v.len() && is_white_space(v[i])
        invariant
            from <= i <= v@.len(),
            trim_start(v@.skip(from as int)) == trim_start(v@.skip(i as int)),
        decreases v@.len() - i,
    {
        i = i + 1;
        proof {
            assert(v@.skip(i - 1).skip(1) =~= v@.skip(i as int));
        }
    }
    i
}

/// The end of `v[from..]` once its trailing white space is dropped.
fn end_before_white(v: &Vec<char>, from: usize) -> (i: usize)
    requires
        from <= v@.len(),
    ensures
        from <= i <= v@.len(),
        trim_end(v@.skip(from as int)) == v@.subrange(from as int, i as int),
{
    let mut i: usize = v.len();
    proof {
        assert(v@.skip(from as int) =~= v@.subrange(from as int, i as int));
    }
    while i > from && is_white_space(v[i - 1])
        invariant
            from <= i <= v@.len(),
            trim_end(v@.skip(from as int)) == trim_end(v@.subrange(from as int, i as int)),
        decreases i,
    {
        i = i - 1;
        proof {
            assert(v@.subrange(from as int, i + 1).drop_last() =~= v@.subrange(from as int, i as int));
        }
    }
    i
}

/// The first character that is no white space.
pub fn first_after_white(s: &str) -> (r: Option<char>)
    ensures
        r == (if trim_start(s@).len() > 0 {
            Some(trim_start(s@)[0])
        } else {
            None
        }),
{
    let v = to_chars(s);
    proof {
        assert(v@.skip(0) =~= v@);
    }
    let start = skip_white(&v, 0);
    if start < v.len() {
        Some(v[start])
    } else {
        None
    }
}

/// Drops trailing white space.
pub fn trimmed_end(s: &str) -> (r: String)
    ensures
        r@ == trim_end(s@),
{
    let v = to_chars(s);
    proof {
        assert(v@.skip(0) =~= v@);
    }
    let end = end_before_white(&v, 0);
    from_chars(&v, 0, end)
}

/// Drops leading and trailing white space.
pub fn trim(s: &str) -> (r: String)
    ensures
        r@ == trimmed(s@),
{
    let v = to_chars(s);
    proof {
        assert(v@.skip(0) =~= v@);
    }
    let start = skip_white(&v, 0);
    let end = end_before_white(&v, start);
    from_chars(&v, start, end)
}

/// The first position of `c` in `s`, or the length of `s` if it does not occur.
pub open spec fn find_char(s: Seq<char>, c: char) -> int
    decreases s.len(),
{
    if s.len() == 0 || s[0] == c {
        0
    } else {
        1 + find_char(s.skip(1), c)
    }
}

/// `find_char` is the first position of the character.
pub proof fn lemma_find_char(s: Seq<char>, c: char)
    ensures
        0 <= find_char(s, c) <= s.len(),
        find_char(s, c) < s.len() ==> s[find_char(s, c)] == c,
        forall|i: int| 0 <= i < find_char(s, c) ==> s[i] != c,
    decreases s.len(),
{
    if s.len() > 0 && s[0] != c {
        lemma_find_char(s.skip(1), c);
        assert forall|i: int| 0 <= i < find_char(s, c) implies s[i] != c by {
            if i > 0 {
                assert(s[i] == s.skip(1)[i - 1]);
            }
        }
    }
}

/// The only position with these properties is `find_char`.
pub proof fn lemma_find_char_unique(s: Seq<char>, c: char, k: int)
    requires
        0 <= k <= s.len(),
        k < s.len() ==> s[k] == c,
        forall|i: int| 0 <= i < k ==> s[i] != c,
    ensures
        find_char(s, c) == k,
{
    lemma_find_char(s, c);
    let f = find_char(s, c);
    if f < k {
        assert(s[f] == c);
    }
    if k < f {
        assert(s[k] == c);
    }
}

/// The first position of `c` at or after `from`, or the end.
pub fn find_from(v: &Vec<char>, from: usize, c: char) -> (i: usize)
    requires
        from <= v@.len(),
    ensures
        from <= i <= v@.len(),
        i == from + find_char(v@.skip(from as int), c),
        i < v@.len() ==> v@[i as int] == c,
        forall|k: int| from <= k < i ==> v@[k] != c,
{
    let mut i: usize = from;
    while i < v.len() && v[i] != c
        invariant
            from <= i <= v@.len(),
            forall|k: int| from <= k < i ==> v@[k] != c,
        decreases v@.len() - i,
    {
        i = i + 1;
    }
    proof {
        let t = v@.skip(from as int);
        assert forall|k: int| 0 <= k < i - from implies t[k] != c by {
            assert(t[k] == v@[from + k]);
        }
        lemma_find_char_unique(t, c, i - from);
    }
    i
}

/// A line without the carriage return that ends it.
pub open spec fn strip_cr(line: Seq<char>) -> Seq<char> {
    if line.len() > 0 && line.last() == '\r' {
        line.drop_last()
    } else {
        line
    }
}

/// The lines of `s`: each ends at a newline, which may follow a carriage return, or at the end of `s`.
pub open spec fn lines(s: Seq<char>) -> Seq<Seq<char>>
    decreases s.len(),
    via lines_decreases
{
    if s.len() == 0 {
        seq![]
    } else {
        let k = find_char(s, '\n');
        if k < s.len() {
            seq![strip_cr(s.take(k))] + lines(s.skip(k + 1))
        } else {
            seq![s]
        }
    }
}

#[via_fn]
proof fn lines_decreases(s: Seq<char>) {
    lemma_find_char(s, '\n');
}

/// Splits `s` into its lines.
pub fn split_lines(s: &str) -> (r: Vec<String>)
    ensures
        texts(r@) == lines(s@),
{
    let v = to_chars(s);
    let mut r: Vec<String> = Vec::new();
    let mut pos: usize = 0;
    proof {
        assert(v@.skip(0) =~= v@);
        assert(texts(r@) + lines(v@.skip(0)) =~= lines(v@));
    }
    while pos < v.len()
        invariant
            pos <= v@.len(),
            texts(r@) + lines(v@.skip(pos as int)) == lines(v@),
        decreases v@.len() - pos,
    {
        let end = find_from(&v, pos, '\n');
        let ghost rest = v@.skip(pos as int);
        let ghost before = r@;
        proof {
            lemma_find_char(rest, '\n');
            assert(rest.take(end - pos) =~= v@.subrange(pos as int, end as int));
        }
        if end < v.len() {
            if end > pos && v[end - 1] == '\r' {
                r.push(from_chars(&v, pos, end - 1));
                proof {
                    assert(v@.subrange(pos as int, end as int).drop_last() =~= v@.subrange(pos as int, end - 1));
                }
            } else {
                r.push(from_chars(&v, pos, end));
            }
            proof {
                assert(rest.skip(end - pos + 1) =~= v@.skip(end + 1));
                assert(texts(r@) =~= texts(before) + seq![strip_cr(rest.take(end - pos))]);
                assert(texts(before) + (seq![strip_cr(rest.take(end - pos))] + lines(v@.skip(end + 1)))
                    =~= texts(r@) + lines(v@.skip(end + 1)));
            }
            pos = end + 1;
        } else {
            r.push(from_chars(&v, pos, end));
            proof {
                assert(v@.subrange(pos as int, end as int) =~= rest);
                assert(texts(r@) =~= texts(before) + seq![rest]);
                assert(v@.skip(end as int).len() == 0);
                assert(texts(r@) + lines(v@.skip(end as int)) =~= texts(before) + seq![rest]);
            }
            pos = end;
        }
    }
    proof {
        assert(v@.skip(pos as int).len() == 0);
        assert(texts(r@) + lines(v@.skip(pos as int)) =~= texts(r@));
    }
    r
}

/// The length of the longest prefix of `s` without white space.
pub open spec fn word_len(s: Seq<char>) -> int
    decreases s.len(),
{
    if s.len() == 0 || white_space(s[0]) {
        0
    } else {
        1 + word_len(s.skip(1))
    }
}

proof fn lemma_word_len(s: Seq<char>)
    ensures
        0 <= word_len(s) <= s.len(),
    decreases s.len(),
{
    if s.len() > 0 && !white_space(s[0]) {
        lemma_word_len(s.skip(1));
    }
}

proof fn lemma_trim_start_len(s: Seq<char>)
    ensures
        trim_start(s).len() <= s.len(),
        trim_start(s).len() > 0 ==> !white_space(trim_start(s)[0]),
    decreases s.len(),
{
    if s.len() > 0 && white_space(s[0]) {
        lemma_trim_start_len(s.skip(1));
    }
}

/// The maximal runs of `s` without white space.
pub open spec fn words(s: Seq<char>) -> Seq<Seq<char>>
    decreases s.len(),
    via words_decreases
{
    let t = trim_start(s);
    if t.len() == 0 {
        seq![]
    } else {
        seq![t.take(word_len(t))] + words(t.skip(word_len(t)))
    }
}

#[via_fn]
proof fn words_decreases(s: Seq<char>) {
    lemma_trim_start_len(s);
    let t = trim_start(s);
    lemma_word_len(t);
    if t.len() > 0 {
        lemma_word_len(t.skip(1));
    }
}

fn word_end(v: &Vec<char>, from: usize) -> (i: usize)
    requires
        from <= v@.len(),
    ensures
        from <= i <= v@.len(),
        i == from + word_len(v@.skip(from as int)),
{
    let mut i: usize = from;
    while i < v.len() && !is_white_space(v[i])
        invariant
            from <= i <= v@.len(),
            word_len(v@.skip(from as int)) == i - from + word_len(v@.skip(i as int)),
        decreases v@.len() - i,
    {
        i = i + 1;
        proof {
            assert(v@.skip(i - 1).skip(1) =~= v@.skip(i as int));
        }
    }
    i
}

/// Splits `s` into its words.
pub fn split_words(s: &str) -> (r: Vec<String>)
    ensures
        texts(r@) == words(s@),
{
    let v = to_chars(s);
    let mut r: Vec<String> = Vec::new();
    proof {
        assert(v@.skip(0) =~= v@);
    }
    let mut pos: usize = skip_white(&v, 0);
    proof {
        assert(texts(r@) + words(v@) =~= words(v@));
        lemma_words_skip_white(v@);
    }
    while pos < v.len()
        invariant
            pos <= v@.len(),
            trim_start(v@.skip(pos as int)) == v@.skip(pos as int),
            texts(r@) + words(v@.skip(pos as int)) == words(v@),
        decreases v@.len() - pos,
    {
        let end = word_end(&v, pos);
        let ghost rest = v@.skip(pos as int);
        let ghost before = r@;
        r.push(from_chars(&v, pos, end));
        proof {
            lemma_trim_start_len(rest);
            lemma_word_len(rest);
            assert(word_len(rest) > 0) by {
                lemma_word_len(rest.skip(1));
            }
            assert(rest.take(end - pos) =~= v@.subrange(pos as int, end as int));
            assert(rest.skip(end - pos) =~= v@.skip(end as int));
            assert(texts(r@) =~= texts(before) + seq![rest.take(end - pos)]);
            assert(texts(before) + (seq![rest.take(end - pos)] + words(v@.skip(end as int)))
                =~= texts(r@) + words(v@.skip(end as int)));
            lemma_words_skip_white(v@.skip(end as int));
        }
        pos = skip_white(&v, end);
    }
    proof {
        assert(texts(r@) + words(v@.skip(pos as int)) =~= texts(r@));
    }
    r
}

proof fn lemma_words_skip_white(s: Seq<char>)
    ensures
        words(s) == words(trim_start(s)),
        trim_start(trim_start(s)) == trim_start(s),
{
    lemma_trim_start_idempotent(s);
}

proof fn lemma_trim_start_idempotent(s: Seq<char>)
    ensures
        trim_start(trim_start(s)) == trim_start(s),
    decreases s.len(),
{
    if s.len() > 0 && white_space(s[0]) {
        lemma_trim_start_idempotent(s.skip(1));
    }
}

/// Whether `s` begins with `prefix`.
pub open spec fn has_prefix(s: Seq<char>, prefix: Seq<char>) -> bool {
    prefix.len() <= s.len() && s.take(prefix.len() as int) == prefix
}

/// Whether `v[at..]` begins with `word`.
pub fn matches_at(v: &Vec<char>, at: usize, word: &Vec<char>) -> (r: bool)
    requires
        at <= v@.len(),
    ensures
        r == has_prefix(v@.skip(at as int), word@),
{
    if word.len() > v.len() - at {
        return false;
    }
    let mut i: usize = 0;
    while i < word.len()
        invariant
            i <= word@.len(),
            at + word.len() <= v.len(),
            forall|k: int| 0 <= k < i ==> v@[at + k] == word@[k],
        decreases word@.len() - i,
    {
        if v[at + i] != word[i] {
            proof {
                assert(v@.skip(at as int).take(word@.len() as int)[i as int] == v@[at + i]);
            }
            return false;
        }
        i = i + 1;
    }
    proof {
        assert(v@.skip(at as int).take(word@.len() as int) =~= word@);
    }
    true
}

/// What follows `prefix` in `s`, if `s` begins with it.
pub fn strip_prefix(s: &str, prefix: &str) -> (r: Option<String>)
    ensures
        match r {
            Some(rest) => has_prefix(s@, prefix@) && rest@ == s@.skip(prefix@.len() as int),
            None => !has_prefix(s@, prefix@),
        },
{
    let v = to_chars(s);
    let p = to_chars(prefix);
    proof {
        assert(v@.skip(0) =~= v@);
    }
    if matches_at(&v, 0, &p) {
        let n: usize = v.len();
        proof {
            assert(v@.subrange(p@.len() as int, n as int) =~= v@.skip(p@.len() as int));
        }
        Some(from_chars(&v, p.len(), n))
    } else {
        None
    }
}

/// What follows `prefix` in the first of the lines that begin with it.
pub open spec fn field(ls: Seq<Seq<char>>, prefix: Seq<char>) -> Option<Seq<char>>
    decreases ls.len(),
{
    if ls.len() == 0 {
        None
    } else if has_prefix(ls[0], prefix) {
        Some(ls[0].skip(prefix.len() as int))
    } else {
        field(ls.skip(1), prefix)
    }
}

/// The first word of a text.
pub open spec fn first_word(s: Seq<char>) -> Option<Seq<char>> {
    if words(s).len() > 0 {
        Some(words(s)[0])
    } else {
        None
    }
}

/// The first word after `prefix` in the first of the lines of `s` that begin with it.
pub open spec fn field_word(s: Seq<char>, prefix: Seq<char>) -> Option<Seq<char>> {
    match field(lines(s), prefix) {
        Some(rest) => first_word(rest),
        None => None,
    }
}

/// The first word of a text, if it has one.
pub fn first_word_of(s: &str) -> (r: Option<String>)
    ensures
        match r {
            Some(word) => first_word(s@) == Some(word@),
            None => first_word(s@) is None,
        },
{
    let all = split_words(s);
    if all.len() > 0 {
        proof {
            assert(texts(all@)[0] == all@[0]@);
        }
        Some(all[0].clone())
    } else {
        None
    }
}

/// The first word after `prefix` in the first line of `s` that begins with it.
pub fn field_word_of(s: &str, prefix: &str) -> (r: Option<String>)
    ensures
        match r {
            Some(word) => field_word(s@, prefix@) == Some(word@),
            None => field_word(s@, prefix@) is None,
        },
{
    let all = split_lines(s);
    let ghost ls = texts(all@);
    let mut i: usize = 0;
    proof {
        assert(ls.skip(0) =~= ls);
    }
    while i < all.len()
        invariant
            i <= all@.len(),
            ls == texts(all@),
            ls == lines(s@),
            field(ls, prefix@) == field(ls.skip(i as int), prefix@),
        decreases all@.len() - i,
    {
        proof {
            assert(ls.skip(i as int)[0] == all@[i as int]@);
        }
        match strip_prefix(all[i].as_str(), prefix) {
            Some(rest) => {
                return first_word_of(rest.as_str());
            },
            None => {},
        }
        i = i + 1;
        proof {
            assert(ls.skip(i - 1).skip(1) =~= ls.skip(i as int));
        }
    }
    None
}

/// Whether `s` begins with a newline.
pub fn starts_with_newline(s: &str) -> (r: bool)
    ensures
        r == (s@.len() > 0 && s@[0] == '\n'),
{
    let v = to_chars(s);
    v.len() > 0 && v[0] == '\n'
}

/// Whether `s` ends with a newline.
pub fn ends_with_newline(s: &str) -> (r: bool)
    ensures
        r == (s@.len() > 0 && s@.last() == '\n'),
{
    let v = to_chars(s);
    v.len() > 0 && v[v.len() - 1] == '\n'
}

/// Whether the two texts are the same.
pub fn same_text(a: &str, b: &str) -> (r: bool)
    ensures
        r == (a@ == b@),
{
    let x = to_chars(a);
    let y = to_chars(b);
    if x.len() != y.len() {
        return false;
    }
    proof {
        assert(x@.skip(0) =~= x@);
        assert(x@.take(x@.len() as int) =~= x@);
    }
    matches_at(&x, 0, &y)
}

/// Whether `c` is an ASCII decimal digit.
pub open spec fn is_digit(c: char) -> bool {
    '0' <= c <= '9'
}

/// The value of an ASCII decimal digit.
pub open spec fn digit_value(c: char) -> int {
    c as int - '0' as int
}

/// Whether `s` is made of ASCII decimal digits.
pub open spec fn all_digits(s: Seq<char>) -> bool {
    forall|i: int| 0 <= i < s.len() ==> is_digit(#[trigger] s[i])
}

/// The number that a sequence of decimal digits writes.
pub open spec fn digits_value(s: Seq<char>) -> int
    decreases s.len(),
{
    if s.len() == 0 {
        0
    } else {
        10 * digits_value(s.drop_last()) + digit_value(s.last())
    }
}

/// The value of a prefix of digits is at most that of all the digits.
pub proof fn lemma_digits_value_grows(s: Seq<char>, k: int)
    requires
        0 <= k <= s.len(),
        all_digits(s),
    ensures
        0 <= digits_value(s.take(k)) <= digits_value(s),
    decreases s.len(),
{
    if k == s.len() {
        assert(s.take(k) =~= s);
        if s.len() > 0 {
            assert(all_digits(s.drop_last()));
            lemma_digits_value_grows(s.drop_last(), s.len() - 1);
            assert(s.drop_last().take(s.len() - 1) =~= s.drop_last());
            assert(is_digit(s[s.len() - 1]));
        }
    } else {
        assert(all_digits(s.drop_last()));
        lemma_digits_value_grows(s.drop_last(), k);
        assert(s.drop_last().take(k) =~= s.take(k));
        assert(is_digit(s[s.len() - 1]));
    }
}

/// The number written by a non-empty run of digits.
pub open spec fn natural(s: Seq<char>) -> Option<int> {
    if s.len() > 0 && all_digits(s) {
        Some(digits_value(s))
    } else {
        None
    }
}

/// The number written by digits that a plus sign may precede.
pub open spec fn unsigned(s: Seq<char>) -> Option<int> {
    if s.len() > 0 && s[0] == '+' {
        natural(s.skip(1))
    } else {
        natural(s)
    }
}

/// The number written by digits that a sign may precede.
pub open spec fn signed(s: Seq<char>) -> Option<int> {
    if s.len() > 0 && s[0] == '-' {
        match natural(s.skip(1)) {
            Some(n) => Some(-n),
            None => None,
        }
    } else {
        unsigned(s)
    }
}

/// A run of digits, read into 64 bits.
enum Digits {
    /// Not a non-empty run of digits.
    Malformed,
    /// A number beyond 64 bits.
    Large,
    /// The number.
    Value(u64),
}

fn read_digits(v: &Vec<char>, from: usize) -> (r: Digits)
    requires
        from <= v@.len(),
    ensures
        match r {
            Digits::Malformed => natural(v@.skip(from as int)) is None,
            Digits::Large => natural(v@.skip(from as int)) is Some && natural(v@.skip(from as int))->0
                > u64::MAX,
            Digits::Value(n) => natural(v@.skip(from as int)) == Some(n as int),
        },
{
    let ghost t = v@.skip(from as int);
    if from == v.len() {
        return Digits::Malformed;
    }
    let mut i: usize = from;
    while i < v.len()
        invariant
            from <= i <= v@.len(),
            t == v@.skip(from as int),
            forall|k: int| 0 <= k < i - from ==> is_digit(#[trigger] t[k]),
        decreases v@.len() - i,
    {
        if v[i] < '0' || v[i] > '9' {
            proof {
                assert(!is_digit(t[i - from]));
            }
            return Digits::Malformed;
        }
        i = i + 1;
    }
    assert(all_digits(t));
    let mut value: u64 = 0;
    let mut j: usize = from;
    proof {
        assert(t.take(0).len() == 0);
    }
    while j < v.len()
        invariant
            from <= j <= v@.len(),
            t == v@.skip(from as int),
            all_digits(t),
            t.len() > 0,
            value == digits_value(t.take(j - from)),
        decreases v@.len() - j,
    {
        let d: u64 = v[j] as u64;
        proof {
            assert(is_digit(t[j - from]));
            assert(t.take(j - from + 1).drop_last() =~= t.take(j - from));
            assert(t.take(j - from + 1).last() == v@[j as int]);
            lemma_digits_value_grows(t, j - from + 1);
        }
        let digit: u64 = d - 48;
        if value > 1844674407370955161 || (value == 1844674407370955161 && digit > 5) {
            return Digits::Large;
        }
        value = value * 10 + digit;
        j = j + 1;
    }
    proof {
        assert(t.take(t.len() as int) =~= t);
    }
    Digits::Value(value)
}

/// The `u64` that a text writes.
pub open spec fn as_u64(s: Seq<char>) -> Option<u64> {
    match unsigned(s) {
        Some(n) => if n <= u64::MAX {
            Some(n as u64)
        } else {
            None
        },
        None => None,
    }
}

/// The `i32` that a text writes.
pub open spec fn as_i32(s: Seq<char>) -> Option<i32> {
    match signed(s) {
        Some(n) => if i32::MIN <= n <= i32::MAX {
            Some(n as i32)
        } else {
            None
        },
        None => None,
    }
}

/// Reads a `u64` from decimal digits that a plus sign may precede.
pub fn parse_u64(s: &str) -> (r: Option<u64>)
    ensures
        r == as_u64(s@),
{
    let v = to_chars(s);
    let start: usize = if v.len() > 0 && v[0] == '+' {
        1
    } else {
        0
    };
    proof {
        assert(v@.skip(0) =~= v@);
    }
    match read_digits(&v, start) {
        Digits::Value(n) => Some(n),
        _ => None,
    }
}

/// Reads an `i32` from decimal digits that a sign may precede.
pub fn parse_i32(s: &str) -> (r: Option<i32>)
    ensures
        r == as_i32(s@),
{
    let v = to_chars(s);
    let negative = v.len() > 0 && v[0] == '-';
    let start: usize = if negative || (v.len() > 0 && v[0] == '+') {
        1
    } else {
        0
    };
    proof {
        assert(v@.skip(0) =~= v@);
    }
    match read_digits(&v, start) {
        Digits::Value(n) => if negative {
            if n <= 2147483648 {
                Some((-(n as i64)) as i32)
            } else {
                None
            }
        } else if n <= 2147483647 {
            Some(n as i32)
        } else {
            None
        },
        _ => None,
    }
}

/// The decimal digits of a number.
pub open spec fn decimal(n: nat) -> Seq<char>
    decreases n,
{
    if n < 10 {
        seq![('0' as int + n) as char]
    } else {
        decimal(n / 10).push(('0' as int + n % 10) as char)
    }
}

/// The decimal digits of a number, after a minus sign if it is negative.
pub open spec fn signed_decimal(n: int) -> Seq<char> {
    if n < 0 {
        seq!['-'] + decimal((-n) as nat)
    } else {
        decimal(n as nat)
    }
}

/// Reading the decimal digits of a number gives the number back.
pub proof fn decimal_round_trip(n: nat)
    ensures
        natural(decimal(n)) == Some(n as int),
    decreases n,
{
    if n < 10 {
        assert(decimal(n).drop_last().len() == 0);
        assert(digits_value(decimal(n).drop_last()) == 0);
    } else {
        decimal_round_trip(n / 10);
        let s = decimal(n);
        assert(s.drop_last() =~= decimal(n / 10));
        assert forall|i: int| 0 <= i < s.len() implies is_digit(#[trigger] s[i]) by {
            if i < s.len() - 1 {
                assert(s[i] == decimal(n / 10)[i]);
            }
        }
    }
}

/// Reading the decimal form of an integer gives the integer back.
pub proof fn signed_decimal_round_trip(n: int)
    ensures
        signed(signed_decimal(n)) == Some(n),
{
    if n < 0 {
        decimal_round_trip((-n) as nat);
        assert(signed_decimal(n).skip(1) =~= decimal((-n) as nat));
    } else {
        decimal_round_trip(n as nat);
        let s = decimal(n as nat);
        assert(is_digit(s[0]));
    }
}

fn digit_char(d: u64) -> (c: char)
    requires
        d < 10,
    ensures
        c == ('0' as int + d) as char,
{
    (48u8 + d as u8) as char
}

/// Writes a number in decimal.
pub fn format_u64(n: u64) -> (r: String)
    ensures
        r@ == decimal(n as nat),
    decreases n,
{
    if n < 10 {
        let mut r = String::new();
        r.push(digit_char(n));
        proof {
            assert(r@ =~= decimal(n as nat));
        }
        r
    } else {
        let mut r = format_u64(n / 10);
        r.push(digit_char(n % 10));
        r
    }
}

/// Writes an integer in decimal.
pub fn format_i32(n: i32) -> (r: String)
    ensures
        r@ == signed_decimal(n as int),
{
    if n < 0 {
        let mut r = String::new();
        r.push('-');
        let digits = format_u64((-(n as i64)) as u64);
        r.append(digits.as_str());
        proof {
            assert(r@ =~= signed_decimal(n as int));
        }
        r
    } else {
        format_u64(n as u64)
    }
}

/// The texts in order, with `separator` between each two.
pub open spec fn joined(parts: Seq<Seq<char>>, separator: Seq<char>) -> Seq<char>
    decreases parts.len(),
{
    if parts.len() == 0 {
        seq![]
    } else if parts.len() == 1 {
        parts[0]
    } else {
        joined(parts.drop_last(), separator) + separator + parts.last()
    }
}

/// Joins texts with `separator` between each two.
pub fn join(parts: &Vec<String>, separator: &str) -> (r: String)
    ensures
        r@ == joined(texts(parts@), separator@),
{
    let mut r = String::new();
    let mut i: usize = 0;
    proof {
        assert(texts(parts@).take(0) =~= seq![]);
        assert(r@ =~= seq![]);
    }
    while i < parts.len()
        invariant
            i <= parts@.len(),
            r@ == joined(texts(parts@).take(i as int), separator@),
        decreases parts@.len() - i,
    {
        let ghost all = texts(parts@);
        proof {
            assert(all.take(i + 1).drop_last() =~= all.take(i as int));
            assert(all.take(i + 1).last() == parts@[i as int]@);
        }
        if i > 0 {
            r.append(separator);
            r.append(parts[i].as_str());
        } else {
            r.append(parts[i].as_str());
            proof {
                assert(r@ =~= parts@[0]@);
            }
        }
        i = i + 1;
    }
    proof {
        assert(texts(parts@).take(parts@.len() as int) =~= texts(parts@));
    }
    r
}

/// Another list of the same texts.
pub fn duplicate_texts(list: &Vec<String>) -> (r: Vec<String>)
    ensures
        texts(r@) == texts(list@),
{
    let mut r: Vec<String> = Vec::new();
    let mut i: usize = 0;
    while i < list.len()
        invariant
            i <= list@.len(),
            r@.len() == i,
            forall|n: int| 0 <= n < i ==> (#[trigger] r@[n])@ == list@[n]@,
        decreases list@.len() - i,
    {
        r.push(list[i].clone());
        i = i + 1;
    }
    proof {
        assert(texts(r@) =~= texts(list@));
    }
    r
}

/// Among the printable ASCII characters there is no white space but the space itself, and the usual controls are white
/// space.
pub proof fn usual_white_space(c: char)
    ensures
        white_space(' ') && white_space('\t') && white_space('\n') && white_space('\r'),
        '!' <= c <= '~' ==> !white_space(c),
{
}

proof fn lemma_trim_start_white(white: Seq<char>, s: Seq<char>)
    requires
        forall|i: int| 0 <= i < white.len() ==> white_space(#[trigger] white[i]),
        s.len() > 0 ==> !white_space(s[0]),
    ensures
        trim_start(white + s) == s,
    decreases white.len(),
{
    if white.len() == 0 {
        assert(white + s =~= s);
    } else {
        let all = white + s;
        let rest = white.skip(1);
        assert(all[0] == white[0]);
        assert(all.skip(1) =~= rest + s);
        assert forall|i: int| 0 <= i < rest.len() implies white_space(#[trigger] rest[i]) by {
            assert(rest[i] == white[i + 1]);
        }
        lemma_trim_start_white(rest, s);
    }
}

proof fn lemma_trim_end_white(s: Seq<char>, white: Seq<char>)
    requires
        forall|i: int| 0 <= i < white.len() ==> white_space(#[trigger] white[i]),
        s.len() > 0 ==> !white_space(s.last()),
    ensures
        trim_end(s + white) == s,
    decreases white.len(),
{
    if white.len() == 0 {
        assert(s + white =~= s);
    } else {
        let all = s + white;
        let rest = white.drop_last();
        assert(all.last() == white[white.len() - 1]);
        assert(all.drop_last() =~= s + rest);
        assert forall|i: int| 0 <= i < rest.len() implies white_space(#[trigger] rest[i]) by {
            assert(rest[i] == white[i]);
        }
        lemma_trim_end_white(s, rest);
    }
}

/// Trimming takes the white space around a text away, and nothing else.
pub proof fn white_space_around_is_taken_away(before: Seq<char>, s: Seq<char>, after: Seq<char>)
    requires
        forall|i: int| 0 <= i < before.len() ==> white_space(#[trigger] before[i]),
        forall|i: int| 0 <= i < after.len() ==> white_space(#[trigger] after[i]),
        s.len() > 0 ==> !white_space(s[0]) && !white_space(s.last()),
    ensures
        trimmed(before + s + after) == s,
{
    if s.len() == 0 {
        let white = before + after;
        assert(before + s + after =~= white + s);
        assert forall|i: int| 0 <= i < white.len() implies white_space(#[trigger] white[i]) by {
            if i < before.len() {
                assert(white[i] == before[i]);
            } else {
                assert(white[i] == after[i - before.len()]);
            }
        }
        lemma_trim_start_white(white, s);
        assert(trim_end(s) =~= s);
    } else {
        assert(before + s + after =~= before + (s + after));
        assert((s + after)[0] == s[0]);
        lemma_trim_start_white(before, s + after);
        lemma_trim_end_white(s, after);
    }
}

/// A line ends at its newline, without a carriage return before it, and the lines after it follow; what no newline ends
/// is a line as it is.
pub proof fn lines_end_at_newlines(line: Seq<char>, rest: Seq<char>)
    requires
        forall|i: int| 0 <= i < line.len() ==> #[trigger] line[i] != '\n',
    ensures
        line.len() == 0 || line.last() != '\r' ==> lines(line + seq!['\n'] + rest) == seq![line] + lines(rest),
        lines(line + seq!['\r', '\n'] + rest) == seq![line] + lines(rest),
        line.len() > 0 ==> lines(line) == seq![line],
        lines(seq![]).len() == 0,
{
    let all = line + seq!['\n'] + rest;
    let n = line.len() as int;
    assert forall|i: int| 0 <= i < n implies #[trigger] all[i] != '\n' by {
        assert(all[i] == line[i]);
    }
    assert(all[n] == '\n');
    lemma_find_char_unique(all, '\n', n);
    assert(all.take(n) =~= line);
    assert(all.skip(n + 1) =~= rest);
    let other = line + seq!['\r', '\n'] + rest;
    assert forall|i: int| 0 <= i < n + 1 implies #[trigger] other[i] != '\n' by {
        if i < n {
            assert(other[i] == line[i]);
        }
    }
    assert(other[n + 1] == '\n');
    lemma_find_char_unique(other, '\n', n + 1);
    assert(other.take(n + 1) =~= line.push('\r'));
    assert(line.push('\r').drop_last() =~= line);
    assert(other.skip(n + 2) =~= rest);
    lemma_find_char_unique(line, '\n', n);
}

/// Words are what white space parts: a word before white space is the first, the words after it follow, and white space
/// before words changes nothing.
pub proof fn words_are_parted_by_white_space(word: Seq<char>, c: char, rest: Seq<char>)
    requires
        white_space(c),
        word.len() > 0,
        forall|i: int| 0 <= i < word.len() ==> !white_space(#[trigger] word[i]),
    ensures
        words(word + seq![c] + rest) == seq![word] + words(rest),
        words(word) == seq![word],
        words(seq![c] + rest) == words(rest),
        words(seq![]).len() == 0,
{
    let all = word + seq![c] + rest;
    let n = word.len() as int;
    lemma_word_ends(all, n);
    lemma_word_ends(word, n);
    assert(all[0] == word[0] && !white_space(word[0]));
    assert(all.take(n) =~= word);
    assert(word.take(n) =~= word);
    let tail = all.skip(n);
    assert(tail =~= seq![c] + rest);
    assert((seq![c] + rest).skip(1) =~= rest);
    assert(trim_start(tail) == trim_start(rest));
    lemma_words_skip_white(tail);
    lemma_words_skip_white(rest);
    let end = word.skip(n);
    assert(end.len() == 0);
    assert(words(end) =~= seq![]);
    assert(words(word) =~= seq![word]);
}

proof fn lemma_word_ends(s: Seq<char>, n: int)
    requires
        0 <= n <= s.len(),
        forall|i: int| 0 <= i < n ==> !white_space(#[trigger] s[i]),
        n < s.len() ==> white_space(s[n]),
    ensures
        word_len(s) == n,
    decreases n,
{
    if n > 0 {
        let rest = s.skip(1);
        assert(!white_space(s[0]));
        assert forall|i: int| 0 <= i < n - 1 implies !white_space(#[trigger] rest[i]) by {
            assert(rest[i] == s[i + 1]);
        }
        lemma_word_ends(rest, n - 1);
    }
}

/// A separator stands between each two texts that are joined, and nowhere else.
pub proof fn separators_stand_between_texts(parts: Seq<Seq<char>>, one: Seq<char>, separator: Seq<char>)
    ensures
        joined(seq![], separator).len() == 0,
        joined(seq![one], separator) == one,
        parts.len() > 0 ==> joined(parts.push(one), separator) == joined(parts, separator) + separator + one,
{
    assert(parts.push(one).drop_last() =~= parts);
}

/// A field is what follows the prefix in the first line that begins with it.
pub proof fn fields_stand_in_the_first_line(ls: Seq<Seq<char>>, prefix: Seq<char>, i: int)
    ensures
        0 <= i < ls.len() && has_prefix(ls[i], prefix) && (forall|j: int|
            0 <= j < i ==> !has_prefix(#[trigger] ls[j], prefix)) ==> field(ls, prefix) == Some(
            ls[i].skip(prefix.len() as int),
        ),
        (forall|j: int| 0 <= j < ls.len() ==> !has_prefix(#[trigger] ls[j], prefix)) ==> field(ls, prefix) is None,
    decreases ls.len(),
{
    if ls.len() > 0 {
        let rest = ls.skip(1);
        fields_stand_in_the_first_line(rest, prefix, i - 1);
        if 0 <= i < ls.len() && has_prefix(ls[i], prefix) && (forall|j: int|
            0 <= j < i ==> !has_prefix(#[trigger] ls[j], prefix)) && i > 0 {
            assert(!has_prefix(ls[0], prefix));
            assert(rest[i - 1] == ls[i]);
            assert forall|j: int| 0 <= j < i - 1 implies !has_prefix(#[trigger] rest[j], prefix) by {
                assert(rest[j] == ls[j + 1]);
            }
        }
        if forall|j: int| 0 <= j < ls.len() ==> !has_prefix(#[trigger] ls[j], prefix) {
            assert(!has_prefix(ls[0], prefix));
            assert forall|j: int| 0 <= j < rest.len() implies !has_prefix(#[trigger] rest[j], prefix) by {
                assert(rest[j] == ls[j + 1]);
            }
        }
    }
}

/// A number is read back from its digits exactly if it fits, with or without a plus sign.
pub proof fn numbers_that_fit_are_read_back(n: nat, m: int)
    ensures
        n <= u64::MAX ==> as_u64(decimal(n)) == Some(n as u64) && as_u64(seq!['+'] + decimal(n)) == Some(n as u64),
        n > u64::MAX ==> as_u64(decimal(n)) is None,
        i32::MIN <= m <= i32::MAX ==> as_i32(signed_decimal(m)) == Some(m as i32),
        m > i32::MAX || m < i32::MIN ==> as_i32(signed_decimal(m)) is None,
{
    decimal_round_trip(n);
    signed_decimal_round_trip(m);
    let digits = decimal(n);
    assert(is_digit(digits[0]));
    let plus = seq!['+'] + digits;
    assert(plus[0] == '+');
    assert(plus.skip(1) =~= digits);
}

/// A text has another as its prefix exactly if it is that one and something more, or nothing.
pub proof fn prefixes_are_followed_by_the_rest(s: Seq<char>, prefix: Seq<char>, rest: Seq<char>)
    ensures
        has_prefix(prefix + rest, prefix),
        has_prefix(s, prefix) ==> s == prefix + s.skip(prefix.len() as int),
{
    assert((prefix + rest).take(prefix.len() as int) =~= prefix);
    if has_prefix(s, prefix) {
        assert(s =~= prefix + s.skip(prefix.len() as int));
    }
}

} // verus!
