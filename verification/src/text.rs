//! Text as sequences of characters: the handful of string operations that the
//! launcher is made of, each with an exact meaning on `Seq<char>`.

use vstd::prelude::*;
use vstd::string::*;

verus! {

/// Trusted: `String::push` appends the given character to the end of the
/// string and changes nothing else.
pub assume_specification[ String::push ](s: &mut String, c: char)
    ensures
        final(s)@ == old(s)@.push(c),
;

/// What the strings of a list hold.
pub open spec fn texts(v: Seq<String>) -> Seq<Seq<char>> {
    Seq::new(v.len(), |i: int| v[i]@)
}

/// What an optional string holds.
pub open spec fn opt_text(s: Option<String>) -> Option<Seq<char>> {
    match s {
        Some(s) => Some(s@),
        None => None,
    }
}

/// The characters of a string.
pub fn chars_of(s: &str) -> (r: Vec<char>)
    ensures
        r@ == s@,
{
    let mut v: Vec<char> = Vec::new();
    for c in it: s.chars()
        invariant
            it.seq() == s@,
            v@ == s@.take(it.index()),
    {
        v.push(c);
    }
    v
}

/// The string made of the characters in `from..to`.
pub fn string_of(v: &Vec<char>, from: usize, to: usize) -> (r: String)
    requires
        from <= to <= v@.len(),
    ensures
        r@ == v@.subrange(from as int, to as int),
{
    let mut s = String::new();
    let mut i: usize = from;
    while i < to
        invariant
            from <= i <= to <= v@.len(),
            s@ == v@.subrange(from as int, i as int),
        decreases to - i,
    {
        s.push(v[i]);
        i += 1;
    }
    s
}

/// Does `needle` stand in `hay` at position `at`?
pub open spec fn occurs_at(hay: Seq<char>, needle: Seq<char>, at: int) -> bool {
    &&& 0 <= at
    &&& at + needle.len() <= hay.len()
    &&& hay.subrange(at, at + needle.len()) == needle
}

/// Does `needle` stand somewhere in `hay`?
pub open spec fn has_text(hay: Seq<char>, needle: Seq<char>) -> bool {
    exists|at: int| #[trigger] occurs_at(hay, needle, at)
}

/// Does the text start with `prefix`?
pub open spec fn starts(s: Seq<char>, prefix: Seq<char>) -> bool {
    occurs_at(s, prefix, 0)
}

/// Does the text end with `suffix`?
pub open spec fn ends(s: Seq<char>, suffix: Seq<char>) -> bool {
    occurs_at(s, suffix, s.len() - suffix.len())
}

/// Compares `needle` with what stands in `hay` from position `at` on.
fn occurs_here(hay: &Vec<char>, needle: &Vec<char>, at: usize) -> (r: bool)
    requires
        at <= hay@.len(),
    ensures
        r == occurs_at(hay@, needle@, at as int),
{
    if needle.len() > hay.len() - at {
        return false;
    }
    let total = hay.len();
    let ghost cut = hay@.subrange(at as int, at + needle@.len());
    let mut i: usize = 0;
    while i < needle.len()
        invariant
            total == hay@.len(),
            at + needle@.len() <= hay@.len(),
            i <= needle@.len(),
            cut == hay@.subrange(at as int, at + needle@.len()),
            forall|k: int| 0 <= k < i ==> #[trigger] cut[k] == needle@[k],
        decreases needle@.len() - i,
    {
        if hay[at + i] != needle[i] {
            assert(cut[i as int] != needle@[i as int]);
            return false;
        }
        i += 1;
    }
    assert(cut =~= needle@);
    true
}

/// Do the two strings hold the same text?
pub fn same_text(a: &str, b: &str) -> (r: bool)
    ensures
        r == (a@ == b@),
{
    let x = chars_of(a);
    let y = chars_of(b);
    if x.len() != y.len() {
        return false;
    }
    let r = occurs_here(&x, &y, 0);
    assert(x@.subrange(0, x@.len() as int) =~= x@);
    r
}

/// Does the text start with `prefix`?
pub fn starts_with(s: &str, prefix: &str) -> (r: bool)
    ensures
        r == starts(s@, prefix@),
{
    occurs_here(&chars_of(s), &chars_of(prefix), 0)
}

/// Does the text end with `suffix`?
pub fn ends_with(s: &str, suffix: &str) -> (r: bool)
    ensures
        r == ends(s@, suffix@),
{
    let x = chars_of(s);
    let y = chars_of(suffix);
    if y.len() > x.len() {
        return false;
    }
    occurs_here(&x, &y, x.len() - y.len())
}

/// Does `needle` stand somewhere in the text?
pub fn contains_text(s: &str, needle: &str) -> (r: bool)
    ensures
        r == has_text(s@, needle@),
{
    let x = chars_of(s);
    let y = chars_of(needle);
    let mut at: usize = 0;
    while at < x.len()
        invariant
            x@ == s@,
            y@ == needle@,
            at <= x@.len(),
            forall|k: int| 0 <= k < at ==> !#[trigger] occurs_at(s@, needle@, k),
        decreases x@.len() - at,
    {
        if occurs_here(&x, &y, at) {
            return true;
        }
        at += 1;
    }
    occurs_here(&x, &y, at)
}

/// What follows `prefix`, for a text that starts with it.
pub open spec fn after_prefix(s: Seq<char>, prefix: Seq<char>) -> Option<Seq<char>> {
    if starts(s, prefix) {
        Some(s.skip(prefix.len() as int))
    } else {
        None
    }
}

/// What follows `prefix`, for a text that starts with it.
pub fn strip_prefix(s: &str, prefix: &str) -> (r: Option<String>)
    ensures
        opt_text(r) == after_prefix(s@, prefix@),
{
    let x = chars_of(s);
    let y = chars_of(prefix);
    if occurs_here(&x, &y, 0) {
        let rest = string_of(&x, y.len(), x.len());
        assert(rest@ =~= s@.skip(prefix@.len() as int));
        Some(rest)
    } else {
        None
    }
}

/// A set of characters that a text is searched for.
#[derive(Clone, Copy)]
pub enum Pattern {
    /// White space, as Unicode's `White_Space` property has it.
    White,
    /// One character.
    Is(char),
}

/// Unicode's `White_Space` property.
pub open spec fn is_white(c: char) -> bool {
    ||| '\u{9}' <= c <= '\u{d}'
    ||| c == ' '
    ||| c == '\u{85}'
    ||| c == '\u{a0}'
    ||| c == '\u{1680}'
    ||| '\u{2000}' <= c <= '\u{200a}'
    ||| c == '\u{2028}'
    ||| c == '\u{2029}'
    ||| c == '\u{202f}'
    ||| c == '\u{205f}'
    ||| c == '\u{3000}'
}

impl Pattern {
    /// Is the character one of the set?
    pub open spec fn covers(self, c: char) -> bool {
        match self {
            Pattern::White => is_white(c),
            Pattern::Is(x) => c == x,
        }
    }

    /// Is the character one of the set?
    pub fn matches(self, c: char) -> (r: bool)
        ensures
            r == self.covers(c),
    {
        match self {
            Pattern::White => {
                ('\u{9}' <= c && c <= '\u{d}') || c == ' ' || c == '\u{85}' || c == '\u{a0}' || c
                    == '\u{1680}' || ('\u{2000}' <= c && c <= '\u{200a}') || c == '\u{2028}' || c
                    == '\u{2029}' || c == '\u{202f}' || c == '\u{205f}' || c == '\u{3000}'
            },
            Pattern::Is(x) => c == x,
        }
    }
}

/// Where the first character of the set stands, or the length of a text that
/// has none.
pub open spec fn find(s: Seq<char>, p: Pattern) -> nat
    decreases s.len(),
{
    if s.len() == 0 || p.covers(s[0]) {
        0
    } else {
        1 + find(s.skip(1), p)
    }
}

/// `find` is the first position that holds a character of the set.
pub proof fn lemma_find(s: Seq<char>, p: Pattern)
    ensures
        find(s, p) <= s.len(),
        find(s, p) < s.len() ==> p.covers(s[find(s, p) as int]),
        forall|k: int| 0 <= k < find(s, p) ==> !p.covers(#[trigger] s[k]),
    decreases s.len(),
{
    if s.len() != 0 && !p.covers(s[0]) {
        lemma_find(s.skip(1), p);
        assert forall|k: int| 0 <= k < find(s, p) implies !p.covers(#[trigger] s[k]) by {
            if k > 0 {
                assert(s[k] == s.skip(1)[k - 1]);
            }
        }
    }
}

/// The first position that holds a character of the set is `find`.
pub proof fn lemma_find_is(s: Seq<char>, p: Pattern, at: int)
    requires
        0 <= at <= s.len(),
        at < s.len() ==> p.covers(s[at]),
        forall|k: int| 0 <= k < at ==> !p.covers(#[trigger] s[k]),
    ensures
        find(s, p) == at,
{
    lemma_find(s, p);
    let f = find(s, p) as int;
    if f < at {
        assert(!p.covers(s[f]));
    } else if at < f {
        assert(!p.covers(s[at]));
    }
}

/// Searches from position `from` on.
fn find_from(v: &Vec<char>, p: Pattern, from: usize) -> (r: usize)
    requires
        from <= v@.len(),
    ensures
        from <= r <= v@.len(),
        r == from + find(v@.skip(from as int), p),
{
    let mut i: usize = from;
    while i < v.len() && !p.matches(v[i])
        invariant
            from <= i <= v@.len(),
            forall|k: int| from <= k < i ==> !p.covers(#[trigger] v@[k]),
        decreases v@.len() - i,
    {
        i += 1;
    }
    proof {
        lemma_find_is(v@.skip(from as int), p, i - from);
    }
    i
}

/// A text without the characters of the set at its start.
pub open spec fn trim_start(s: Seq<char>, p: Pattern) -> Seq<char>
    decreases s.len(),
{
    if s.len() > 0 && p.covers(s[0]) {
        trim_start(s.skip(1), p)
    } else {
        s
    }
}

/// A text without the characters of the set at its end.
pub open spec fn trim_end(s: Seq<char>, p: Pattern) -> Seq<char>
    decreases s.len(),
{
    if s.len() > 0 && p.covers(s.last()) {
        trim_end(s.drop_last(), p)
    } else {
        s
    }
}

/// A text without the characters of the set at either end.
pub open spec fn trim(s: Seq<char>, p: Pattern) -> Seq<char> {
    trim_end(trim_start(s, p), p)
}

/// A text without the white space at either end.
pub open spec fn trimmed(s: Seq<char>) -> Seq<char> {
    trim(s, Pattern::White)
}

/// Trimming the start leaves a piece of the text that does not start with a
/// character of the set.
pub proof fn lemma_trim_start(s: Seq<char>, p: Pattern)
    ensures
        trim_start(s, p).len() <= s.len(),
        trim_start(s, p) == s.skip(s.len() - trim_start(s, p).len()),
        trim_start(s, p).len() > 0 ==> !p.covers(trim_start(s, p)[0]),
    decreases s.len(),
{
    if s.len() > 0 && p.covers(s[0]) {
        lemma_trim_start(s.skip(1), p);
        let n = trim_start(s, p).len() as int;
        assert(s.skip(1).skip(s.len() - 1 - n) =~= s.skip(s.len() - n));
    } else {
        assert(s.skip(0) =~= s);
    }
}

/// A trimmed text is the start of the text, and nothing is left at its end to
/// trim.
pub proof fn lemma_trim_end(s: Seq<char>, p: Pattern)
    ensures
        trim_end(s, p).len() <= s.len(),
        trim_end(s, p) == s.take(trim_end(s, p).len() as int),
        trim_end(s, p).len() > 0 ==> !p.covers(trim_end(s, p).last()),
    decreases s.len(),
{
    if s.len() > 0 && p.covers(s.last()) {
        lemma_trim_end(s.drop_last(), p);
        let n = trim_end(s, p).len() as int;
        assert(s.drop_last().take(n) =~= s.take(n));
    } else {
        assert(s.take(s.len() as int) =~= s);
    }
}

/// Where a text begins once the characters of the set at its start are gone.
fn start_of(v: &Vec<char>, p: Pattern) -> (r: usize)
    ensures
        r <= v@.len(),
        v@.skip(r as int) == trim_start(v@, p),
{
    let mut i: usize = 0;
    assert(v@.skip(0) =~= v@);
    while i < v.len() && p.matches(v[i])
        invariant
            i <= v@.len(),
            trim_start(v@.skip(i as int), p) == trim_start(v@, p),
        decreases v@.len() - i,
    {
        assert(v@.skip(i as int).skip(1) =~= v@.skip(i + 1));
        i += 1;
    }
    i
}

/// Where a text that begins at `from` ends once the characters of the set at
/// its end are gone.
fn end_of(v: &Vec<char>, from: usize, p: Pattern) -> (r: usize)
    requires
        from <= v@.len(),
    ensures
        from <= r <= v@.len(),
        v@.subrange(from as int, r as int) == trim_end(v@.skip(from as int), p),
{
    let mut i: usize = v.len();
    assert(v@.subrange(from as int, i as int) =~= v@.skip(from as int));
    while i > from && p.matches(v[i - 1])
        invariant
            from <= i <= v@.len(),
            trim_end(v@.subrange(from as int, i as int), p) == trim_end(v@.skip(from as int), p),
        decreases i,
    {
        assert(v@.subrange(from as int, i as int).drop_last() =~= v@.subrange(
            from as int,
            i - 1,
        ));
        i -= 1;
    }
    i
}

/// A text without the characters of the set at either end.
pub fn trim_both(s: &str, p: Pattern) -> (r: String)
    ensures
        r@ == trim(s@, p),
{
    let v = chars_of(s);
    let from = start_of(&v, p);
    let to = end_of(&v, from, p);
    string_of(&v, from, to)
}

/// A text without the characters of the set at its end.
pub fn trim_tail(s: &str, p: Pattern) -> (r: String)
    ensures
        r@ == trim_end(s@, p),
{
    let v = chars_of(s);
    let to = end_of(&v, 0, p);
    assert(v@.skip(0) =~= v@);
    string_of(&v, 0, to)
}

/// A text without the white space at either end.
pub fn trim_white(s: &str) -> (r: String)
    ensures
        r@ == trimmed(s@),
{
    trim_both(s, Pattern::White)
}

/// What stands before and after the first character of the set.
pub open spec fn split_once(s: Seq<char>, p: Pattern) -> Option<(Seq<char>, Seq<char>)> {
    let at = find(s, p) as int;
    if at < s.len() {
        Some((s.take(at), s.skip(at + 1)))
    } else {
        None
    }
}

/// What an optional pair of strings holds.
pub open spec fn opt_pair(r: Option<(String, String)>) -> Option<(Seq<char>, Seq<char>)> {
    match r {
        Some((a, b)) => Some((a@, b@)),
        None => None,
    }
}

/// What stands before and after the first character of the set.
pub fn split_at_first(s: &str, p: Pattern) -> (r: Option<(String, String)>)
    ensures
        opt_pair(r) == split_once(s@, p),
{
    let v = chars_of(s);
    let at = find_from(&v, p, 0);
    assert(v@.skip(0) =~= v@);
    if at < v.len() {
        let a = string_of(&v, 0, at);
        let b = string_of(&v, at + 1, v.len());
        assert(a@ =~= s@.take(at as int));
        assert(b@ =~= s@.skip(at + 1));
        Some((a, b))
    } else {
        None
    }
}

/// What stands before the first character of the set, or the whole text.
pub open spec fn head(s: Seq<char>, p: Pattern) -> Seq<char> {
    s.take(find(s, p) as int)
}

/// What stands before the first character of the set, or the whole text.
pub fn text_before(s: &str, p: Pattern) -> (r: String)
    ensures
        r@ == head(s@, p),
{
    let v = chars_of(s);
    let at = find_from(&v, p, 0);
    assert(v@.skip(0) =~= v@);
    let a = string_of(&v, 0, at);
    assert(a@ =~= s@.take(at as int));
    a
}

/// Does any character of the text belong to the set?
pub open spec fn any_of(s: Seq<char>, p: Pattern) -> bool {
    exists|k: int| 0 <= k < s.len() && p.covers(#[trigger] s[k])
}

/// Does any character of the text belong to the set?
pub fn has_any(s: &str, p: Pattern) -> (r: bool)
    ensures
        r == any_of(s@, p),
{
    let v = chars_of(s);
    let at = find_from(&v, p, 0);
    proof {
        assert(v@.skip(0) =~= v@);
        lemma_find(s@, p);
    }
    at < v.len()
}

/// The pieces of a text between runs of white space.
pub open spec fn words(s: Seq<char>) -> Seq<Seq<char>>
    decreases s.len(),
{
    if s.len() == 0 {
        seq![]
    } else if is_white(s[0]) {
        words(s.skip(1))
    } else {
        let k = find(s, Pattern::White) as int;
        proof {
            lemma_find(s, Pattern::White);
        }
        seq![s.take(k)] + words(s.skip(k))
    }
}

/// The pieces of a text between runs of white space.
pub fn split_words(s: &str) -> (r: Vec<String>)
    ensures
        texts(r@) == words(s@),
{
    let v = chars_of(s);
    let mut out: Vec<String> = Vec::new();
    let mut i: usize = 0;
    assert(v@.skip(0) =~= v@);
    assert(texts(out@) + words(v@) =~= words(v@));
    while i < v.len()
        invariant
            i <= v@.len(),
            texts(out@) + words(v@.skip(i as int)) == words(v@),
        decreases v@.len() - i,
    {
        let ghost rest = v@.skip(i as int);
        if Pattern::White.matches(v[i]) {
            assert(rest.skip(1) =~= v@.skip(i + 1));
            i += 1;
        } else {
            let j = find_from(&v, Pattern::White, i);
            let w = string_of(&v, i, j);
            let ghost before = texts(out@);
            out.push(w);
            proof {
                assert(rest.take(j - i) =~= w@);
                assert(rest.skip(j - i) =~= v@.skip(j as int));
                assert(texts(out@) =~= before + seq![w@]);
                assert(texts(out@) + words(v@.skip(j as int)) =~= before + (seq![w@] + words(
                    v@.skip(j as int),
                )));
            }
            i = j;
        }
    }
    assert(texts(out@) =~= texts(out@) + words(v@.skip(i as int)));
    out
}

/// The line that ends before a line feed: a carriage return before the line
/// feed belongs to the line's end, not to the line.
pub open spec fn chomp(s: Seq<char>) -> Seq<char> {
    if s.len() > 0 && s.last() == '\r' {
        s.drop_last()
    } else {
        s
    }
}

/// The lines of a text. A line feed, or a carriage return and a line feed, ends
/// a line; the last line need not be ended.
pub open spec fn lines(s: Seq<char>) -> Seq<Seq<char>>
    decreases s.len(),
{
    if s.len() == 0 {
        seq![]
    } else {
        let k = find(s, Pattern::Is('\n')) as int;
        if k < s.len() {
            seq![chomp(s.take(k))] + lines(s.skip(k + 1))
        } else {
            seq![s]
        }
    }
}

/// The lines of a text.
pub fn split_lines(s: &str) -> (r: Vec<String>)
    ensures
        texts(r@) == lines(s@),
{
    let v = chars_of(s);
    let mut out: Vec<String> = Vec::new();
    let mut i: usize = 0;
    assert(v@.skip(0) =~= v@);
    assert(texts(out@) + lines(v@) =~= lines(v@));
    while i < v.len()
        invariant
            i <= v@.len(),
            texts(out@) + lines(v@.skip(i as int)) == lines(v@),
        decreases v@.len() - i,
    {
        let ghost rest = v@.skip(i as int);
        let j = find_from(&v, Pattern::Is('\n'), i);
        let ghost before = texts(out@);
        if j < v.len() {
            let end = if j > i && v[j - 1] == '\r' {
                j - 1
            } else {
                j
            };
            let l = string_of(&v, i, end);
            out.push(l);
            proof {
                assert(chomp(rest.take(j - i)) =~= l@);
                assert(rest.skip(j - i + 1) =~= v@.skip(j + 1));
                assert(texts(out@) =~= before + seq![l@]);
                assert(texts(out@) + lines(v@.skip(j + 1)) =~= before + (seq![l@] + lines(
                    v@.skip(j + 1),
                )));
            }
            i = j + 1;
        } else {
            let l = string_of(&v, i, j);
            out.push(l);
            proof {
                assert(rest =~= l@);
                assert(texts(out@) =~= before + seq![l@]);
                assert(v@.skip(j as int) =~= seq![]);
                assert(texts(out@) + lines(v@.skip(j as int)) =~= before + seq![l@]);
            }
            i = j;
        }
    }
    assert(texts(out@) =~= texts(out@) + lines(v@.skip(i as int)));
    out
}

/// Lines, each ended by a line feed.
pub open spec fn unlines(ls: Seq<Seq<char>>) -> Seq<char>
    decreases ls.len(),
{
    if ls.len() == 0 {
        seq![]
    } else {
        unlines(ls.drop_last()) + ls.last() + seq!['\n']
    }
}

/// A text that survives being written as a line and read back.
pub open spec fn plain_line(l: Seq<char>) -> bool {
    &&& !any_of(l, Pattern::Is('\n'))
    &&& chomp(l) == l
}

/// Plain lines, written out and followed by more text, are read back as they
/// were, followed by the lines of that text.
pub proof fn lemma_lines_of_unlines(ls: Seq<Seq<char>>, rest: Seq<char>)
    requires
        forall|k: int| 0 <= k < ls.len() ==> plain_line(#[trigger] ls[k]),
    ensures
        lines(unlines(ls) + rest) == ls + lines(rest),
    decreases ls.len(),
{
    if ls.len() == 0 {
        assert(unlines(ls) + rest =~= rest);
        assert(ls + lines(rest) =~= lines(rest));
    } else {
        let front = ls.drop_last();
        let last = ls.last();
        assert(plain_line(ls[ls.len() - 1]));
        let more = last + seq!['\n'] + rest;
        assert forall|k: int| 0 <= k < front.len() implies plain_line(#[trigger] front[k]) by {
            assert(plain_line(ls[k]));
        }
        lemma_lines_of_unlines(front, more);
        assert(unlines(ls) + rest =~= unlines(front) + more);
        lemma_find_is(more, Pattern::Is('\n'), last.len() as int);
        assert(more.take(last.len() as int) =~= last);
        assert(more.skip(last.len() as int + 1) =~= rest);
        assert(ls + lines(rest) =~= front + (seq![last] + lines(rest)));
    }
}

/// Writing lists of lines one after the other writes the two texts one after
/// the other.
pub proof fn lemma_unlines_concat(a: Seq<Seq<char>>, b: Seq<Seq<char>>)
    ensures
        unlines(a + b) == unlines(a) + unlines(b),
    decreases b.len(),
{
    if b.len() == 0 {
        assert(a + b =~= a);
        assert(unlines(a) + unlines(b) =~= unlines(a));
    } else {
        lemma_unlines_concat(a, b.drop_last());
        assert((a + b).drop_last() =~= a + b.drop_last());
        assert(unlines(a + b) =~= unlines(a) + unlines(b));
    }
}

/// No line of a text holds a line feed.
pub proof fn lemma_lines_have_no_newline(s: Seq<char>)
    ensures
        forall|k: int|
            0 <= k < lines(s).len() ==> !any_of(#[trigger] lines(s)[k], Pattern::Is('\n')),
    decreases s.len(),
{
    if s.len() != 0 {
        let p = Pattern::Is('\n');
        lemma_find(s, p);
        let k = find(s, p) as int;
        if k < s.len() {
            lemma_lines_have_no_newline(s.skip(k + 1));
            let first = chomp(s.take(k));
            assert(!any_of(first, p)) by {
                assert forall|i: int| 0 <= i < first.len() implies !p.covers(#[trigger] first[i]) by {
                    assert(first[i] == s[i]);
                }
            }
            assert forall|i: int| 0 <= i < lines(s).len() implies !any_of(
                #[trigger] lines(s)[i],
                p,
            ) by {
                if i > 0 {
                    assert(lines(s)[i] == lines(s.skip(k + 1))[i - 1]);
                }
            }
        }
    }
}

/// The texts one after another, with `sep` between each two.
pub open spec fn joined(list: Seq<Seq<char>>, sep: Seq<char>) -> Seq<char>
    decreases list.len(),
{
    if list.len() == 0 {
        seq![]
    } else if list.len() == 1 {
        list[0]
    } else {
        joined(list.drop_last(), sep) + sep + list.last()
    }
}

/// The texts one after another, with `sep` between each two.
pub fn join_texts(list: &Vec<String>, sep: &str) -> (r: String)
    ensures
        r@ == joined(texts(list@), sep@),
{
    let mut out = String::new();
    let ghost all = texts(list@);
    let mut i: usize = 0;
    while i < list.len()
        invariant
            all == texts(list@),
            i <= list@.len(),
            out@ == joined(all.take(i as int), sep@),
        decreases list@.len() - i,
    {
        if i > 0 {
            out.append(sep);
        }
        out.append(list[i].as_str());
        proof {
            assert(all.take(i + 1).drop_last() =~= all.take(i as int));
            if i == 0 {
                assert(out@ =~= all[0]);
            }
        }
        i += 1;
    }
    assert(all.take(i as int) =~= all);
    out
}

/// Are all characters of the text in the set?
pub open spec fn all_of(s: Seq<char>, p: Pattern) -> bool {
    forall|k: int| 0 <= k < s.len() ==> p.covers(#[trigger] s[k])
}

/// Trimming the start takes away all that is to be trimmed and nothing else.
proof fn lemma_trim_start_is(a: Seq<char>, middle: Seq<char>, p: Pattern)
    requires
        all_of(a, p),
        middle.len() > 0 ==> !p.covers(middle[0]),
    ensures
        trim_start(a + middle, p) == middle,
    decreases a.len(),
{
    if a.len() == 0 {
        assert(a + middle =~= middle);
    } else {
        let s = a + middle;
        let rest = a.skip(1);
        assert forall|k: int| 0 <= k < rest.len() implies p.covers(#[trigger] rest[k]) by {
            assert(rest[k] == a[k + 1]);
        }
        lemma_trim_start_is(rest, middle, p);
        assert(s[0] == a[0]);
        assert(s.skip(1) =~= rest + middle);
    }
}

/// Trimming the end takes away all that is to be trimmed and nothing else: a text that does
/// not end in a character of the set, with only such characters behind it, gives that text.
pub proof fn law_trim_end(middle: Seq<char>, b: Seq<char>, p: Pattern)
    requires
        all_of(b, p),
        middle.len() > 0 ==> !p.covers(middle.last()),
    ensures
        trim_end(middle + b, p) == middle,
    decreases b.len(),
{
    if b.len() == 0 {
        assert(middle + b =~= middle);
    } else {
        let s = middle + b;
        let rest = b.drop_last();
        assert forall|k: int| 0 <= k < rest.len() implies p.covers(#[trigger] rest[k]) by {
            assert(rest[k] == b[k]);
        }
        law_trim_end(middle, rest, p);
        assert(s.last() == b[b.len() - 1]);
        assert(s.drop_last() =~= middle + rest);
    }
}

/// Trimming takes away all that is to be trimmed, at both ends, and nothing else.
pub proof fn law_trim(a: Seq<char>, middle: Seq<char>, b: Seq<char>, p: Pattern)
    requires
        all_of(a, p),
        all_of(b, p),
        middle.len() > 0 ==> !p.covers(middle[0]) && !p.covers(middle.last()),
    ensures
        trim(a + middle + b, p) == middle,
        p == Pattern::White ==> trimmed(a + middle + b) == middle,
{
    let rest = middle + b;
    assert(a + middle + b =~= a + rest);
    if middle.len() > 0 {
        assert(rest[0] == middle[0]);
        lemma_trim_start_is(a, rest, p);
        law_trim_end(middle, b, p);
    } else {
        let all = a + rest;
        assert forall|k: int| 0 <= k < all.len() implies p.covers(#[trigger] all[k]) by {
            if k < a.len() {
                assert(all[k] == a[k]);
            } else {
                assert(all[k] == b[k - a.len()]);
            }
        }
        lemma_trim_start_is(all, seq![], p);
        assert(all + seq![] =~= all);
        law_trim_end(seq![], seq![], p);
        assert(seq![] + seq![] =~= Seq::<char>::empty());
        assert(middle =~= seq![]);
    }
}

/// What a set of characters is: one character, or white space, to which the space, the tab
/// and both ends of a line belong, and no letter, digit or other visible ASCII character.
pub proof fn law_patterns(x: char, c: char)
    ensures
        Pattern::Is(x).covers(c) <==> c == x,
        Pattern::White.covers(' '),
        Pattern::White.covers('\t'),
        Pattern::White.covers('\n'),
        Pattern::White.covers('\r'),
        '!' <= c <= '~' ==> !Pattern::White.covers(c),
{
}

/// A text is split at the first character of the set, which goes; what stands before it
/// holds none. A text without such a character is not split.
pub proof fn law_split(a: Seq<char>, c: char, b: Seq<char>, p: Pattern)
    requires
        !any_of(a, p),
        p.covers(c),
    ensures
        split_once(a + seq![c] + b, p) == Some((a, b)),
        head(a + seq![c] + b, p) == a,
        split_once(a, p) is None,
        head(a, p) == a,
{
    let s = a + seq![c] + b;
    let n = a.len() as int;
    assert forall|k: int| 0 <= k < n implies !p.covers(#[trigger] s[k]) by {
        assert(s[k] == a[k]);
    }
    lemma_find_is(s, p, n);
    assert(s.take(n) =~= a);
    assert(s.skip(n + 1) =~= b);
    lemma_find_is(a, p, n);
    assert(a.take(n) =~= a);
}

/// The words of a text are its pieces between white space: white space before a piece and
/// behind it goes, and the piece is one word.
pub proof fn law_words(gap: Seq<char>, word: Seq<char>, rest: Seq<char>)
    requires
        all_of(gap, Pattern::White),
        !any_of(word, Pattern::White),
        word.len() > 0,
        rest.len() > 0 ==> Pattern::White.covers(rest[0]),
    ensures
        words(gap + word + rest) == seq![word] + words(rest),
        words(gap) == Seq::<Seq<char>>::empty(),
    decreases gap.len(),
{
    let white = Pattern::White;
    let s = gap + word + rest;
    if gap.len() > 0 {
        let less = gap.skip(1);
        assert forall|k: int| 0 <= k < less.len() implies white.covers(#[trigger] less[k]) by {
            assert(less[k] == gap[k + 1]);
        }
        law_words(less, word, rest);
        assert(s[0] == gap[0]);
        assert(white.covers(gap[0]));
        assert(s.skip(1) =~= less + word + rest);
    } else {
        assert(s =~= word + rest);
        let n = word.len() as int;
        assert forall|k: int| 0 <= k < n implies !white.covers(#[trigger] s[k]) by {
            assert(s[k] == word[k]);
        }
        lemma_find_is(s, white, n);
        assert(!white.covers(s[0]));
        assert(s.take(n) =~= word);
        assert(s.skip(n) =~= rest);
    }
}

/// The lines of a text: a line feed, with or without a carriage return before it, ends a
/// line and belongs to none, and what is behind the last one is a line if it is not empty.
pub proof fn law_lines(line: Seq<char>, rest: Seq<char>)
    requires
        !any_of(line, Pattern::Is('\n')),
    ensures
        lines(line + seq!['\r', '\n'] + rest) == seq![line] + lines(rest),
        line.len() == 0 || line.last() != '\r' ==> lines(line + seq!['\n'] + rest) == seq![line]
            + lines(rest),
        line.len() > 0 ==> lines(line) == seq![line],
        lines(Seq::<char>::empty()) == Seq::<Seq<char>>::empty(),
{
    let p = Pattern::Is('\n');
    let n = line.len() as int;
    let s = line + seq!['\r', '\n'] + rest;
    assert forall|k: int| 0 <= k < n + 1 implies !p.covers(#[trigger] s[k]) by {
        if k < n {
            assert(s[k] == line[k]);
        }
    }
    lemma_find_is(s, p, n + 1);
    assert(s.take(n + 1).drop_last() =~= line);
    assert(s.take(n + 1).last() == '\r');
    assert(s.skip(n + 2) =~= rest);
    let t = line + seq!['\n'] + rest;
    assert forall|k: int| 0 <= k < n implies !p.covers(#[trigger] t[k]) by {
        assert(t[k] == line[k]);
    }
    lemma_find_is(t, p, n);
    assert(t.take(n) =~= line);
    assert(t.skip(n + 1) =~= rest);
    lemma_find_is(line, p, n);
}

/// Lines are written one after the other, each with a line feed behind it.
pub proof fn law_unlines(ls: Seq<Seq<char>>, line: Seq<char>)
    ensures
        unlines(Seq::<Seq<char>>::empty()) == Seq::<char>::empty(),
        unlines(ls.push(line)) == unlines(ls) + line + seq!['\n'],
{
    assert(ls.push(line).drop_last() =~= ls);
}

/// Joined texts stand one after the other, whole and in order, with the separator between
/// each two and nowhere else.
pub proof fn law_joined(list: Seq<Seq<char>>, text: Seq<char>, sep: Seq<char>)
    ensures
        joined(Seq::<Seq<char>>::empty(), sep) == Seq::<char>::empty(),
        joined(seq![text], sep) == text,
        list.len() > 0 ==> joined(list.push(text), sep) == joined(list, sep) + sep + text,
{
    assert(list.push(text).drop_last() =~= list);
}

/// Each of the joined texts stands whole in the result.
pub proof fn law_joined_holds_all(list: Seq<Seq<char>>, sep: Seq<char>, k: int)
    requires
        0 <= k < list.len(),
    ensures
        has_text(joined(list, sep), list[k]),
    decreases list.len(),
{
    let whole = joined(list, sep);
    let n = list.len() - 1;
    if n == 0 {
        assert(whole.subrange(0, whole.len() as int) =~= list[k]);
        assert(occurs_at(whole, list[k], 0));
    } else {
        let front = list.drop_last();
        let before = joined(front, sep);
        if k < n {
            law_joined_holds_all(front, sep, k);
            let at = choose|at: int| #[trigger] occurs_at(before, front[k], at);
            assert(whole.subrange(at, at + list[k].len()) =~= before.subrange(
                at,
                at + list[k].len(),
            ));
            assert(occurs_at(whole, list[k], at));
        } else {
            let at = (before.len() + sep.len()) as int;
            assert(whole.subrange(at, at + list[k].len()) =~= list[k]);
            assert(occurs_at(whole, list[k], at));
        }
    }
}

/// A text starts with what it is put together from first, ends with what it is put together
/// from last, and holds what it is put together from between.
pub proof fn law_pieces(a: Seq<char>, b: Seq<char>, c: Seq<char>)
    ensures
        starts(a + b, a),
        after_prefix(a + b, a) == Some(b),
        ends(a + b, b),
        has_text(a + b + c, b),
{
    let s = a + b;
    assert(s.subrange(0, a.len() as int) =~= a);
    assert(s.skip(a.len() as int) =~= b);
    assert(s.subrange(s.len() - b.len(), s.len() as int) =~= b);
    let t = a + b + c;
    let at = a.len() as int;
    assert(t.subrange(at, at + b.len()) =~= b);
    assert(occurs_at(t, b, at));
}

/// A text that starts with another, ends with it or holds it is put together from it.
pub proof fn law_pieces_only(s: Seq<char>, piece: Seq<char>)
    ensures
        starts(s, piece) ==> piece.len() <= s.len() && s == piece + s.skip(piece.len() as int),
        after_prefix(s, piece) is Some <==> starts(s, piece),
        ends(s, piece) ==> piece.len() <= s.len() && s == s.take(s.len() - piece.len()) + piece,
        has_text(s, piece) ==> exists|a: Seq<char>, b: Seq<char>| s == #[trigger] (a + piece + b),
{
    let n = piece.len() as int;
    if starts(s, piece) {
        assert(s =~= s.subrange(0, n) + s.skip(n));
    }
    if ends(s, piece) {
        let at = s.len() - n;
        assert(s =~= s.take(at) + s.subrange(at, at + n));
    }
    if has_text(s, piece) {
        let at = choose|at: int| #[trigger] occurs_at(s, piece, at);
        assert(s =~= s.take(at) + s.subrange(at, at + n) + s.skip(at + n));
        assert(s == s.take(at) + piece + s.skip(at + n));
    }
}

/// The pieces of a text that is put together from five.
pub proof fn lemma_five_pieces(
    a: Seq<char>,
    b: Seq<char>,
    c: Seq<char>,
    d: Seq<char>,
    e: Seq<char>,
)
    ensures
        starts(a + b + c + d + e, a),
        has_text(a + b + c + d + e, b),
        has_text(a + b + c + d + e, c),
        has_text(a + b + c + d + e, d),
        ends(a + b + c + d + e, e),
{
    let s = a + b + c + d + e;
    let i = a.len() as int;
    let j = i + b.len();
    let k = j + c.len();
    let l = k + d.len();
    assert(s.subrange(0, i) =~= a);
    assert(s.subrange(i, j) =~= b);
    assert(s.subrange(j, k) =~= c);
    assert(s.subrange(k, l) =~= d);
    assert(s.subrange(l, s.len() as int) =~= e);
    assert(occurs_at(s, b, i));
    assert(occurs_at(s, c, j));
    assert(occurs_at(s, d, k));
}

/// What trimming the end takes away is all to be trimmed.
pub proof fn lemma_trim_end_rest(s: Seq<char>, p: Pattern)
    ensures
        forall|k: int| trim_end(s, p).len() <= k < s.len() ==> p.covers(#[trigger] s[k]),
    decreases s.len(),
{
    if s.len() > 0 && p.covers(s.last()) {
        let front = s.drop_last();
        lemma_trim_end_rest(front, p);
        assert forall|k: int| trim_end(s, p).len() <= k < s.len() implies p.covers(
            #[trigger] s[k],
        ) by {
            if k < front.len() {
                assert(front[k] == s[k]);
            }
        }
    }
}

/// What trimming the start takes away is all to be trimmed.
pub proof fn lemma_trim_start_rest(s: Seq<char>, p: Pattern)
    ensures
        forall|k: int| 0 <= k < s.len() - trim_start(s, p).len() ==> p.covers(#[trigger] s[k]),
    decreases s.len(),
{
    if s.len() > 0 && p.covers(s[0]) {
        let rest = s.skip(1);
        lemma_trim_start_rest(rest, p);
        assert forall|k: int| 0 <= k < s.len() - trim_start(s, p).len() implies p.covers(
            #[trigger] s[k],
        ) by {
            if k > 0 {
                assert(rest[k - 1] == s[k]);
            }
        }
    }
}

/// What strings hold, each in its place.
pub proof fn law_texts(v: Seq<String>, i: int, s: String)
    ensures
        texts(v).len() == v.len(),
        0 <= i < v.len() ==> texts(v)[i] == v[i]@,
        opt_text(Some(s)) == Some(s@),
        opt_text(None) is None,
{
}

/// A character of the set is found wherever it stands, and only where one stands.
pub proof fn law_any_of(a: Seq<char>, c: char, b: Seq<char>, p: Pattern)
    ensures
        p.covers(c) ==> any_of(a + seq![c] + b, p),
        all_of(a, p) && a.len() > 0 ==> any_of(a, p),
        (forall|k: int| 0 <= k < a.len() ==> !p.covers(#[trigger] a[k])) ==> !any_of(a, p),
{
    let s = a + seq![c] + b;
    assert(s[a.len() as int] == c);
    if all_of(a, p) && a.len() > 0 {
        assert(p.covers(a[0]));
    }
}

/// A line is plain exactly if it holds no line feed and does not end in a carriage return.
pub proof fn law_plain_line(line: Seq<char>)
    ensures
        plain_line(line) <==> !any_of(line, Pattern::Is('\n')) && (line.len() == 0 || line.last()
            != '\r'),
{
    if line.len() > 0 && line.last() == '\r' {
        assert(chomp(line).len() != line.len());
    }
}

} // verus!
