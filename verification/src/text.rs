//! Character-sequence primitives.
//!
//! Every parser in this crate is stated over `Seq<char>`, the view of a
//! string, and runs on `Vec<char>`. This module holds the vocabulary the
//! parsers share: classes of characters, trimming, searching, splitting and
//! decimal numbers.

use vstd::prelude::*;

verus! {

/// `String::push` appends one character to the string.
pub assume_specification[ String::push ](s: &mut String, c: char)
    ensures
        final(s)@ == old(s)@.push(c),
;

/// The lowercase form of a text: what `str::to_lowercase` returns for it.
pub uninterp spec fn lowercase(s: Seq<char>) -> Seq<char>;

/// `str::to_lowercase` returns the lowercase form of the string, which
/// depends on the characters of the string alone; the contract gives that
/// result its name and says nothing more of it.
pub assume_specification[ str::to_lowercase ](s: &str) -> (r: String)
    ensures
        r@ == lowercase(s@),
;

/// The characters of `s`, in order.
pub fn chars_of(s: &str) -> (v: Vec<char>)
    ensures
        v@ == s@,
{
    let mut v: Vec<char> = Vec::new();
    for c in it: s.chars()
        invariant
            v@ == s@.take(it.index() as int),
            it.seq() == s@,
    {
        v.push(c);
    }
    v
}

/// The string made of the characters of `v`, in order.
pub fn string_of(v: &Vec<char>) -> (s: String)
    ensures
        s@ == v@,
{
    let mut s = String::new();
    let mut i: usize = 0;
    while i < v.len()
        invariant
            i <= v.len(),
            s@ == v@.take(i as int),
        decreases v.len() - i,
    {
        s.push(v[i]);
        i += 1;
    }
    s
}

/// A set of characters that a scan looks for or skips.
#[derive(Clone, Copy, Debug)]
pub enum CharClass {
    /// Characters with the Unicode `White_Space` property.
    Whitespace,
    /// Exactly one character.
    Only(char),
    /// `0` to `9`.
    Digit,
    /// The characters that can start a version comparison: `> < = ! ~`.
    Comparator,
}

/// Whether `c` has the Unicode `White_Space` property.
pub open spec fn is_whitespace(c: char) -> bool {
    ||| '\u{9}' <= c <= '\u{d}'
    ||| c == ' '
    ||| c == '\u{85}'
    ||| c == '\u{a0}'
    ||| c == '\u{1680}'
    ||| '\u{2000}' <= c <= '\u{200a}'
    ||| c == '\u{2028}'
    ||| c == '\u{2029}'
    ||| c == '\u{202f}'
    ||| c == '\u{205f}'
    ||| c == '\u{3000}'
}

/// Whether `c` is one of `0` to `9`.
pub open spec fn is_digit(c: char) -> bool {
    '0' <= c <= '9'
}

impl CharClass {
    /// Whether `c` belongs to the class.
    pub open spec fn has(self, c: char) -> bool {
        match self {
            CharClass::Whitespace => is_whitespace(c),
            CharClass::Only(x) => c == x,
            CharClass::Digit => is_digit(c),
            CharClass::Comparator => c == '>' || c == '<' || c == '=' || c == '!' || c == '~',
        }
    }

    /// Whether `c` belongs to the class.
    pub fn contains(&self, c: char) -> (b: bool)
        ensures
            b == self.has(c),
    {
        match self {
            CharClass::Whitespace => {
                ('\u{9}' <= c && c <= '\u{d}') || c == ' ' || c == '\u{85}' || c == '\u{a0}' || c
                    == '\u{1680}' || ('\u{2000}' <= c && c <= '\u{200a}') || c == '\u{2028}' || c
                    == '\u{2029}' || c == '\u{202f}' || c == '\u{205f}' || c == '\u{3000}'
            },
            CharClass::Only(x) => c == *x,
            CharClass::Digit => '0' <= c && c <= '9',
            CharClass::Comparator => c == '>' || c == '<' || c == '=' || c == '!' || c == '~',
        }
    }
}

/// The index of the first character of `s` that is in `cls` (if `want`) or
/// not in `cls` (if `!want`); `s.len()` when there is none.
pub open spec fn first_index(s: Seq<char>, cls: CharClass, want: bool) -> int
    decreases s.len(),
{
    if s.len() == 0 {
        0
    } else if cls.has(s[0]) == want {
        0
    } else {
        1 + first_index(s.drop_first(), cls, want)
    }
}

/// The length of `s` once every trailing character in `cls` is dropped.
pub open spec fn trimmed_end(s: Seq<char>, cls: CharClass) -> int
    decreases s.len(),
{
    if s.len() == 0 {
        0
    } else if cls.has(s.last()) {
        trimmed_end(s.drop_last(), cls)
    } else {
        s.len() as int
    }
}

/// `first_index` is within the sequence, points at a character of the
/// kind looked for, and no character before it is of that kind.
pub proof fn lemma_first_index(s: Seq<char>, cls: CharClass, want: bool)
    ensures
        0 <= first_index(s, cls, want) <= s.len(),
        first_index(s, cls, want) < s.len() ==> cls.has(s[first_index(s, cls, want)]) == want,
        forall|j: int| 0 <= j < first_index(s, cls, want) ==> cls.has(#[trigger] s[j]) != want,
    decreases s.len(),
{
    if s.len() > 0 && cls.has(s[0]) != want {
        let t = s.drop_first();
        lemma_first_index(t, cls, want);
        assert forall|j: int| 0 <= j < first_index(s, cls, want) implies cls.has(#[trigger] s[j])
            != want by {
            if j > 0 {
                assert(s[j] == t[j - 1]);
            }
        }
    }
}

/// `first_index` is the only index with the two properties that
/// `lemma_first_index` gives.
pub proof fn lemma_first_index_is(s: Seq<char>, cls: CharClass, want: bool, i: int)
    requires
        0 <= i <= s.len(),
        i < s.len() ==> cls.has(s[i]) == want,
        forall|j: int| 0 <= j < i ==> cls.has(#[trigger] s[j]) != want,
    ensures
        first_index(s, cls, want) == i,
    decreases s.len(),
{
    if s.len() > 0 && i > 0 {
        let t = s.drop_first();
        assert(cls.has(s[0]) != want);
        assert forall|j: int| 0 <= j < i - 1 implies cls.has(#[trigger] t[j]) != want by {
            assert(t[j] == s[j + 1]);
        }
        lemma_first_index_is(t, cls, want, i - 1);
    }
}

/// `trimmed_end` is within the sequence, the character before it is
/// not in the class, and every character from it on is.
pub proof fn lemma_trimmed_end(s: Seq<char>, cls: CharClass)
    ensures
        0 <= trimmed_end(s, cls) <= s.len(),
        trimmed_end(s, cls) > 0 ==> !cls.has(s[trimmed_end(s, cls) - 1]),
        forall|j: int| trimmed_end(s, cls) <= j < s.len() ==> cls.has(#[trigger] s[j]),
    decreases s.len(),
{
    if s.len() > 0 && cls.has(s.last()) {
        let t = s.drop_last();
        lemma_trimmed_end(t, cls);
        assert forall|j: int| trimmed_end(s, cls) <= j < s.len() implies cls.has(
            #[trigger] s[j],
        ) by {
            if j < t.len() {
                assert(s[j] == t[j]);
            }
        }
    }
}

/// `trimmed_end` is the only length with the properties that
/// `lemma_trimmed_end` gives.
pub proof fn lemma_trimmed_end_is(s: Seq<char>, cls: CharClass, e: int)
    requires
        0 <= e <= s.len(),
        e > 0 ==> !cls.has(s[e - 1]),
        forall|j: int| e <= j < s.len() ==> cls.has(#[trigger] s[j]),
    ensures
        trimmed_end(s, cls) == e,
    decreases s.len(),
{
    if s.len() > 0 && e < s.len() {
        assert(cls.has(s[s.len() - 1]));
        let t = s.drop_last();
        assert forall|j: int| e <= j < t.len() implies cls.has(#[trigger] t[j]) by {
            assert(t[j] == s[j]);
        }
        lemma_trimmed_end_is(t, cls, e);
    }
}

/// `s` without its leading characters in `cls`.
pub open spec fn strip_start(s: Seq<char>, cls: CharClass) -> Seq<char> {
    s.skip(first_index(s, cls, false))
}

/// `s` without its trailing characters in `cls`.
pub open spec fn strip_end(s: Seq<char>, cls: CharClass) -> Seq<char> {
    s.take(trimmed_end(s, cls))
}

/// `s` without its leading and trailing characters in `cls`.
pub open spec fn strip(s: Seq<char>, cls: CharClass) -> Seq<char> {
    strip_end(strip_start(s, cls), cls)
}

/// `s` without leading and trailing white space.
pub open spec fn trim(s: Seq<char>) -> Seq<char> {
    strip(s, CharClass::Whitespace)
}

/// The index of the first `c` in `s`, or `s.len()`.
pub open spec fn find_char(s: Seq<char>, c: char) -> int {
    first_index(s, CharClass::Only(c), true)
}

/// Whether `c` occurs in `s`.
pub open spec fn has_char(s: Seq<char>, c: char) -> bool {
    find_char(s, c) < s.len()
}

/// Whether `p` is a prefix of `s`.
pub open spec fn starts_with(s: Seq<char>, p: Seq<char>) -> bool {
    p.len() <= s.len() && s.take(p.len() as int) == p
}

/// Whether `p` is a suffix of `s`.
pub open spec fn ends_with(s: Seq<char>, p: Seq<char>) -> bool {
    p.len() <= s.len() && s.skip(s.len() - p.len()) == p
}

/// Whether `p` occurs in `s` at index `i`.
pub open spec fn occurs_at(s: Seq<char>, p: Seq<char>, i: int) -> bool {
    0 <= i && i + p.len() <= s.len() && s.subrange(i, i + p.len()) == p
}

/// The index of the first occurrence of `p` in `s`, or `s.len() + 1` when
/// `p` does not occur.
pub open spec fn find_sub(s: Seq<char>, p: Seq<char>) -> int
    decreases s.len(),
{
    if starts_with(s, p) {
        0
    } else if s.len() == 0 {
        1
    } else {
        1 + find_sub(s.drop_first(), p)
    }
}

/// Whether `p` occurs somewhere in `s`.
pub open spec fn contains_sub(s: Seq<char>, p: Seq<char>) -> bool {
    find_sub(s, p) <= s.len()
}

/// `find_sub` points at an occurrence of the pattern, if there is one,
/// and the pattern occurs at no place before it.
pub proof fn lemma_find_sub(s: Seq<char>, p: Seq<char>)
    ensures
        0 <= find_sub(s, p) <= s.len() + 1,
        find_sub(s, p) <= s.len() ==> occurs_at(s, p, find_sub(s, p)),
        forall|j: int| 0 <= j < find_sub(s, p) && j <= s.len() ==> !occurs_at(s, p, j),
    decreases s.len(),
{
    if starts_with(s, p) {
        assert(s.subrange(0, p.len() as int) == s.take(p.len() as int));
    } else if s.len() == 0 {
        assert forall|j: int| 0 <= j < 1 implies !occurs_at(s, p, j) by {
            if occurs_at(s, p, j) {
                assert(s.subrange(0, p.len() as int) == s.take(p.len() as int));
            }
        }
    } else {
        let t = s.drop_first();
        lemma_find_sub(t, p);
        let r = find_sub(t, p);
        if r <= t.len() {
            assert(t.subrange(r, r + p.len()) == s.subrange(r + 1, r + 1 + p.len()));
        }
        assert forall|j: int| 0 <= j < find_sub(s, p) && j <= s.len() implies !occurs_at(
            s,
            p,
            j,
        ) by {
            if j == 0 {
                if occurs_at(s, p, 0) {
                    assert(s.subrange(0, p.len() as int) == s.take(p.len() as int));
                }
            } else {
                if occurs_at(s, p, j) {
                    assert(t.subrange(j - 1, j - 1 + p.len()) == s.subrange(j, j + p.len()));
                    assert(occurs_at(t, p, j - 1));
                }
            }
        }
    }
}

/// `find_sub` is the only index with the properties that `lemma_find_sub`
/// gives.
pub proof fn lemma_find_sub_is(s: Seq<char>, p: Seq<char>, i: int)
    requires
        0 <= i <= s.len() + 1,
        i <= s.len() ==> occurs_at(s, p, i),
        forall|j: int| 0 <= j < i && j <= s.len() ==> !occurs_at(s, p, j),
    ensures
        find_sub(s, p) == i,
{
    lemma_find_sub(s, p);
    let r = find_sub(s, p);
    if r < i {
        assert(!occurs_at(s, p, r));
    } else if i < r {
        assert(!occurs_at(s, p, i));
    }
}

/// Whether `p` occurs somewhere in `s`, stated with a quantifier.
pub proof fn lemma_contains_sub(s: Seq<char>, p: Seq<char>)
    ensures
        contains_sub(s, p) <==> exists|i: int| occurs_at(s, p, i),
{
    lemma_find_sub(s, p);
    if contains_sub(s, p) {
        assert(occurs_at(s, p, find_sub(s, p)));
    }
}


/// Exec counterpart of `first_index`.
pub fn first_index_of(v: &Vec<char>, cls: CharClass, want: bool) -> (i: usize)
    ensures
        i == first_index(v@, cls, want),
        i <= v.len(),
{
    let mut i: usize = 0;
    while i < v.len() && cls.contains(v[i]) != want
        invariant
            i <= v.len(),
            forall|j: int| 0 <= j < i ==> cls.has(#[trigger] v@[j]) != want,
        decreases v.len() - i,
    {
        i += 1;
    }
    proof {
        lemma_first_index_is(v@, cls, want, i as int);
    }
    i
}

/// Exec counterpart of `trimmed_end`.
pub fn trimmed_end_of(v: &Vec<char>, cls: CharClass) -> (e: usize)
    ensures
        e == trimmed_end(v@, cls),
        e <= v.len(),
{
    let mut e: usize = v.len();
    while e > 0 && cls.contains(v[e - 1])
        invariant
            e <= v.len(),
            forall|j: int| e <= j < v.len() ==> cls.has(#[trigger] v@[j]),
        decreases e,
    {
        e -= 1;
    }
    proof {
        lemma_trimmed_end_is(v@, cls, e as int);
    }
    e
}

/// The characters of `v` from index `from` up to, not including, `to`.
pub fn slice(v: &Vec<char>, from: usize, to: usize) -> (r: Vec<char>)
    requires
        from <= to <= v.len(),
    ensures
        r@ == v@.subrange(from as int, to as int),
{
    let mut r: Vec<char> = Vec::new();
    let mut i: usize = from;
    while i < to
        invariant
            from <= i <= to <= v.len(),
            r@ == v@.subrange(from as int, i as int),
        decreases to - i,
    {
        r.push(v[i]);
        i += 1;
    }
    r
}

/// A copy of `v`.
pub fn copy(v: &Vec<char>) -> (r: Vec<char>)
    ensures
        r@ == v@,
{
    let r = slice(v, 0, v.len());
    assert(v@.subrange(0, v.len() as int) == v@);
    r
}

/// Appends the characters of `b` to `a`.
pub fn append(a: &mut Vec<char>, b: &Vec<char>)
    ensures
        final(a)@ == old(a)@ + b@,
{
    let mut i: usize = 0;
    while i < b.len()
        invariant
            i <= b.len(),
            a@ == old(a)@ + b@.take(i as int),
        decreases b.len() - i,
    {
        a.push(b[i]);
        i += 1;
    }
}

/// Appends the characters of the string `b` to `a`.
pub fn append_str(a: &mut Vec<char>, b: &str)
    ensures
        final(a)@ == old(a)@ + b@,
{
    let bv = chars_of(b);
    append(a, &bv);
}

/// Exec counterpart of `strip_start`.
pub fn strip_start_of(v: &Vec<char>, cls: CharClass) -> (r: Vec<char>)
    ensures
        r@ == strip_start(v@, cls),
{
    let i = first_index_of(v, cls, false);
    slice(v, i, v.len())
}

/// Exec counterpart of `strip_end`.
pub fn strip_end_of(v: &Vec<char>, cls: CharClass) -> (r: Vec<char>)
    ensures
        r@ == strip_end(v@, cls),
{
    let e = trimmed_end_of(v, cls);
    slice(v, 0, e)
}

/// Exec counterpart of `strip`.
pub fn strip_of(v: &Vec<char>, cls: CharClass) -> (r: Vec<char>)
    ensures
        r@ == strip(v@, cls),
{
    let t = strip_start_of(v, cls);
    strip_end_of(&t, cls)
}

/// Exec counterpart of `trim`.
pub fn trim_of(v: &Vec<char>) -> (r: Vec<char>)
    ensures
        r@ == trim(v@),
{
    strip_of(v, CharClass::Whitespace)
}

/// Whether the two vectors hold the same characters.
pub fn same(a: &Vec<char>, b: &Vec<char>) -> (r: bool)
    ensures
        r == (a@ == b@),
{
    if a.len() != b.len() {
        return false;
    }
    let mut i: usize = 0;
    while i < a.len()
        invariant
            i <= a.len(),
            a.len() == b.len(),
            forall|j: int| 0 <= j < i ==> a@[j] == b@[j],
        decreases a.len() - i,
    {
        if a[i] != b[i] {
            return false;
        }
        i += 1;
    }
    assert(a@ =~= b@);
    true
}

/// Whether `v` holds exactly the characters of the string `s`.
pub fn same_str(v: &Vec<char>, s: &str) -> (r: bool)
    ensures
        r == (v@ == s@),
{
    let sv = chars_of(s);
    same(v, &sv)
}

/// Exec counterpart of `occurs_at`.
pub fn occurs_at_of(v: &Vec<char>, p: &Vec<char>, i: usize) -> (r: bool)
    ensures
        r == occurs_at(v@, p@, i as int),
{
    if i > v.len() || p.len() > v.len() - i {
        return false;
    }
    let mut k: usize = 0;
    while k < p.len()
        invariant
            k <= p.len(),
            i + p.len() <= v.len(),
            forall|j: int| 0 <= j < k ==> v@[i + j] == p@[j],
        decreases p.len() - k,
    {
        if v[i + k] != p[k] {
            assert(v@.subrange(i as int, i + p.len())[k as int] == v@[i + k]);
            return false;
        }
        k += 1;
    }
    assert(v@.subrange(i as int, i + p.len()) =~= p@);
    true
}

/// Exec counterpart of `starts_with`.
pub fn has_prefix(v: &Vec<char>, p: &Vec<char>) -> (r: bool)
    ensures
        r == starts_with(v@, p@),
{
    let r = occurs_at_of(v, p, 0);
    proof {
        if p.len() <= v.len() {
            assert(v@.subrange(0, p.len() as int) == v@.take(p.len() as int));
        }
    }
    r
}

/// Exec counterpart of `ends_with`.
pub fn has_suffix(v: &Vec<char>, p: &Vec<char>) -> (r: bool)
    ensures
        r == ends_with(v@, p@),
{
    if p.len() > v.len() {
        return false;
    }
    let r = occurs_at_of(v, p, v.len() - p.len());
    proof {
        assert(v@.subrange(v.len() - p.len(), v.len() as int) == v@.skip(v.len() - p.len()));
    }
    r
}

/// Exec counterpart of `find_sub`: the index of the first occurrence, or
/// `None`.
pub fn find_sub_of(v: &Vec<char>, p: &Vec<char>) -> (r: Option<usize>)
    ensures
        match r {
            Some(i) => i == find_sub(v@, p@) && i <= v.len(),
            None => !contains_sub(v@, p@),
        },
{
    let mut i: usize = 0;
    while i <= v.len()
        invariant
            i <= v.len() + 1,
            forall|j: int| 0 <= j < i && j <= v.len() ==> !occurs_at(v@, p@, j),
        decreases v.len() + 1 - i,
    {
        if occurs_at_of(v, p, i) {
            proof {
                lemma_find_sub_is(v@, p@, i as int);
            }
            return Some(i);
        }
        if i == v.len() {
            proof {
                lemma_find_sub_is(v@, p@, v.len() + 1);
            }
            return None;
        }
        i += 1;
    }
    proof {
        lemma_find_sub_is(v@, p@, v.len() + 1);
    }
    None
}

/// Exec counterpart of `contains_sub`, for a pattern given as a string.
pub fn contains_str(v: &Vec<char>, p: &str) -> (r: bool)
    ensures
        r == contains_sub(v@, p@),
{
    let pv = chars_of(p);
    let r = find_sub_of(v, &pv);
    proof {
        lemma_find_sub(v@, pv@);
    }
    r.is_some()
}

/// Exec counterpart of `starts_with`, for a prefix given as a string.
pub fn has_prefix_str(v: &Vec<char>, p: &str) -> (r: bool)
    ensures
        r == starts_with(v@, p@),
{
    let pv = chars_of(p);
    has_prefix(v, &pv)
}

/// Exec counterpart of `has_char`.
pub fn contains_char(v: &Vec<char>, c: char) -> (r: bool)
    ensures
        r == has_char(v@, c),
{
    first_index_of(v, CharClass::Only(c), true) < v.len()
}


/// The character sequences that the vectors of `v` hold.
pub open spec fn views(v: Seq<Vec<char>>) -> Seq<Seq<char>> {
    Seq::new(v.len(), |i: int| v[i]@)
}

/// The views of vectors with one more vector are the views with one
/// more view.
pub proof fn lemma_views_push(v: Seq<Vec<char>>, x: Vec<char>)
    ensures
        views(v.push(x)) == views(v).push(x@),
{
    assert(views(v.push(x)) =~= views(v).push(x@));
}

/// The pieces of `s` between occurrences of `sep`. There is always at
/// least one piece; `n` separators give `n + 1` pieces.
pub open spec fn split(s: Seq<char>, sep: char) -> Seq<Seq<char>>
    decreases s.len(),
{
    let i = find_char(s, sep);
    if 0 <= i < s.len() {
        seq![s.take(i)] + split(s.skip(i + 1), sep)
    } else {
        seq![s]
    }
}

/// The pieces of `s` between successive occurrences of the non-empty
/// pattern `p`, found from the left without overlap.
pub open spec fn split_sub(s: Seq<char>, p: Seq<char>) -> Seq<Seq<char>>
    decreases s.len(),
{
    let i = find_sub(s, p);
    if p.len() > 0 && 0 <= i <= s.len() - p.len() {
        seq![s.take(i)] + split_sub(s.skip(i + p.len()), p)
    } else {
        seq![s]
    }
}

/// The lines of `s`: the text is cut after each `\n`; a line loses its
/// `\n` and then one `\r` before it. An empty text has no lines, and a
/// final line need not end in `\n`.
pub open spec fn lines(s: Seq<char>) -> Seq<Seq<char>>
    decreases s.len(),
{
    let i = find_char(s, '\n');
    if s.len() == 0 {
        seq![]
    } else if 0 <= i < s.len() {
        seq![chomp_cr(s.take(i))] + lines(s.skip(i + 1))
    } else {
        seq![s]
    }
}

/// `s` without one trailing `\r`.
pub open spec fn chomp_cr(s: Seq<char>) -> Seq<char> {
    if s.len() > 0 && s.last() == '\r' {
        s.drop_last()
    } else {
        s
    }
}

/// A text has at least one piece, and at most one more than it has
/// characters.
pub proof fn lemma_split_nonempty(s: Seq<char>, sep: char)
    ensures
        split(s, sep).len() >= 1,
        split(s, sep).len() <= s.len() + 1,
    decreases s.len(),
{
    let i = find_char(s, sep);
    if 0 <= i < s.len() {
        lemma_split_nonempty(s.skip(i + 1), sep);
    }
}

/// Splitting `a`, a separator and `b` gives the pieces of `a` followed by
/// the pieces of `b`.
pub proof fn lemma_split_concat(a: Seq<char>, b: Seq<char>, sep: char)
    ensures
        split(a + seq![sep] + b, sep) == split(a, sep) + split(b, sep),
    decreases a.len(),
{
    let s = a + seq![sep] + b;
    let cls = CharClass::Only(sep);
    lemma_first_index(a, cls, true);
    let i = find_char(a, sep);
    if i < a.len() {
        assert forall|j: int| 0 <= j < i implies cls.has(#[trigger] s[j]) != true by {
            assert(s[j] == a[j]);
        }
        assert(s[i] == a[i]);
        lemma_first_index_is(s, cls, true, i);
        assert(s.take(i) == a.take(i));
        assert(s.skip(i + 1) == a.skip(i + 1) + seq![sep] + b);
        lemma_split_concat(a.skip(i + 1), b, sep);
        assert(seq![a.take(i)] + (split(a.skip(i + 1), sep) + split(b, sep)) == (seq![a.take(i)]
            + split(a.skip(i + 1), sep)) + split(b, sep));
    } else {
        assert forall|j: int| 0 <= j < a.len() implies cls.has(#[trigger] s[j]) != true by {
            assert(s[j] == a[j]);
        }
        assert(s[a.len() as int] == sep);
        lemma_first_index_is(s, cls, true, a.len() as int);
        assert(s.take(a.len() as int) == a);
        assert(s.skip(a.len() as int + 1) == b);
    }
}

/// Exec counterpart of `split`.
pub fn split_of(v: &Vec<char>, sep: char) -> (r: Vec<Vec<char>>)
    ensures
        views(r@) == split(v@, sep),
        r.len() >= 1,
{
    let mut r: Vec<Vec<char>> = Vec::new();
    let mut start: usize = 0;
    let mut i: usize = 0;
    let cls = CharClass::Only(sep);
    proof {
        assert(v@.skip(0) == v@);
        assert(views(r@) + split(v@, sep) == split(v@, sep));
    }
    while i < v.len()
        invariant
            start <= i <= v.len(),
            cls == CharClass::Only(sep),
            forall|j: int| start <= j < i ==> v@[j] != sep,
            split(v@, sep) == views(r@) + split(v@.skip(start as int), sep),
        decreases v.len() - i,
    {
        if v[i] == sep {
            let piece = slice(v, start, i);
            proof {
                let rest = v@.skip(start as int);
                assert forall|j: int| 0 <= j < i - start implies cls.has(#[trigger] rest[j])
                    != true by {
                    assert(rest[j] == v@[start + j]);
                }
                assert(rest[i - start] == sep);
                lemma_first_index_is(rest, cls, true, i - start);
                assert(rest.take(i - start) == piece@);
                assert(rest.skip(i - start + 1) == v@.skip(i + 1));
                lemma_views_push(r@, piece);
                assert(views(r@) + (seq![piece@] + split(v@.skip(i + 1), sep)) == views(
                    r@,
                ).push(piece@) + split(v@.skip(i + 1), sep));
            }
            r.push(piece);
            start = i + 1;
        }
        i += 1;
    }
    let piece = slice(v, start, v.len());
    proof {
        let rest = v@.skip(start as int);
        assert forall|j: int| 0 <= j < rest.len() implies cls.has(#[trigger] rest[j]) != true by {
            assert(rest[j] == v@[start + j]);
        }
        lemma_first_index_is(rest, cls, true, rest.len() as int);
        assert(rest == piece@);
        lemma_views_push(r@, piece);
        assert(views(r@) + seq![piece@] == views(r@).push(piece@));
    }
    r.push(piece);
    r
}

/// Exec counterpart of `split_sub`.
pub fn split_sub_of(v: &Vec<char>, p: &Vec<char>) -> (r: Vec<Vec<char>>)
    requires
        p.len() > 0,
    ensures
        views(r@) == split_sub(v@, p@),
        r.len() >= 1,
{
    let mut r: Vec<Vec<char>> = Vec::new();
    let mut rest: Vec<char> = copy(v);
    proof {
        assert(views(r@) + split_sub(v@, p@) == split_sub(v@, p@));
    }
    loop
        invariant
            p.len() > 0,
            rest.len() <= v.len(),
            split_sub(v@, p@) == views(r@) + split_sub(rest@, p@),
        decreases rest.len(),
    {
        match find_sub_of(&rest, p) {
            Some(i) => {
                proof {
                    lemma_find_sub(rest@, p@);
                }
                let piece = slice(&rest, 0, i);
                let next = slice(&rest, i + p.len(), rest.len());
                proof {
                    assert(rest@.take(i as int) == piece@);
                    assert(rest@.skip(i + p.len()) == next@);
                    lemma_views_push(r@, piece);
                    assert(views(r@) + (seq![piece@] + split_sub(next@, p@)) == views(r@).push(
                        piece@,
                    ) + split_sub(next@, p@));
                }
                r.push(piece);
                rest = next;
            },
            None => {
                proof {
                    lemma_views_push(r@, rest);
                    assert(views(r@) + seq![rest@] == views(r@).push(rest@));
                }
                r.push(rest);
                return r;
            },
        }
    }
}

/// Exec counterpart of `chomp_cr`.
pub fn chomp_cr_of(v: &Vec<char>) -> (r: Vec<char>)
    ensures
        r@ == chomp_cr(v@),
{
    if v.len() > 0 && v[v.len() - 1] == '\r' {
        slice(v, 0, v.len() - 1)
    } else {
        copy(v)
    }
}

/// Exec counterpart of `lines`.
pub fn lines_of(v: &Vec<char>) -> (r: Vec<Vec<char>>)
    ensures
        views(r@) == lines(v@),
{
    let mut r: Vec<Vec<char>> = Vec::new();
    let mut start: usize = 0;
    let mut i: usize = 0;
    let cls = CharClass::Only('\n');
    proof {
        assert(v@.skip(0) == v@);
        assert(views(r@) + lines(v@) == lines(v@));
    }
    while i < v.len()
        invariant
            start <= i <= v.len(),
            cls == CharClass::Only('\n'),
            forall|j: int| start <= j < i ==> v@[j] != '\n',
            lines(v@) == views(r@) + lines(v@.skip(start as int)),
        decreases v.len() - i,
    {
        if v[i] == '\n' {
            let raw = slice(v, start, i);
            let piece = chomp_cr_of(&raw);
            proof {
                let rest = v@.skip(start as int);
                assert forall|j: int| 0 <= j < i - start implies cls.has(#[trigger] rest[j])
                    != true by {
                    assert(rest[j] == v@[start + j]);
                }
                assert(rest[i - start] == '\n');
                lemma_first_index_is(rest, cls, true, i - start);
                assert(rest.take(i - start) == raw@);
                assert(rest.skip(i - start + 1) == v@.skip(i + 1));
                lemma_views_push(r@, piece);
                assert(views(r@) + (seq![piece@] + lines(v@.skip(i + 1))) == views(r@).push(
                    piece@,
                ) + lines(v@.skip(i + 1)));
            }
            r.push(piece);
            start = i + 1;
        }
        i += 1;
    }
    if start < v.len() {
        let piece = slice(v, start, v.len());
        proof {
            let rest = v@.skip(start as int);
            assert forall|j: int| 0 <= j < rest.len() implies cls.has(#[trigger] rest[j])
                != true by {
                assert(rest[j] == v@[start + j]);
            }
            lemma_first_index_is(rest, cls, true, rest.len() as int);
            assert(rest == piece@);
            lemma_views_push(r@, piece);
            assert(views(r@) + seq![piece@] == views(r@).push(piece@));
        }
        r.push(piece);
    } else {
        assert(views(r@) + Seq::<Seq<char>>::empty() == views(r@));
    }
    r
}


/// The number that the decimal digit `c` stands for.
pub open spec fn digit_value(c: char) -> nat {
    (c as int - '0' as int) as nat
}

/// The number that a sequence of decimal digits stands for; 0 for the
/// empty sequence.
pub open spec fn digits_value(s: Seq<char>) -> nat
    decreases s.len(),
{
    if s.len() == 0 {
        0
    } else {
        digits_value(s.drop_last()) * 10 + digit_value(s.last())
    }
}

/// Whether every character of `s` is a decimal digit.
pub open spec fn all_digits(s: Seq<char>) -> bool {
    first_index(s, CharClass::Digit, false) == s.len()
}

/// The leading decimal digits of `s`.
pub open spec fn leading_digits(s: Seq<char>) -> Seq<char> {
    s.take(first_index(s, CharClass::Digit, false))
}

/// What an unsigned decimal number parses to when the largest value of its
/// type is `max`: an optional `+`, then one or more digits, and a value
/// that fits.
pub open spec fn parse_unsigned(s: Seq<char>, max: nat) -> Option<nat> {
    let d = if s.len() > 0 && s[0] == '+' {
        s.drop_first()
    } else {
        s
    };
    if d.len() > 0 && all_digits(d) && digits_value(d) <= max {
        Some(digits_value(d))
    } else {
        None
    }
}

/// What a signed decimal number parses to when its type ranges from `min`
/// to `max`: an optional `+` or `-`, then one or more digits, and a value
/// that fits.
pub open spec fn parse_signed(s: Seq<char>, min: int, max: int) -> Option<int> {
    let neg = s.len() > 0 && s[0] == '-';
    let d = if s.len() > 0 && (s[0] == '+' || s[0] == '-') {
        s.drop_first()
    } else {
        s
    };
    let n = if neg {
        -(digits_value(d) as int)
    } else {
        digits_value(d) as int
    };
    if d.len() > 0 && all_digits(d) && min <= n <= max {
        Some(n)
    } else {
        None
    }
}

/// A longer run of digits stands for a number at least as large as any of
/// its prefixes does.
pub proof fn lemma_digits_value_prefix(s: Seq<char>, k: int)
    requires
        0 <= k <= s.len(),
    ensures
        digits_value(s.take(k)) <= digits_value(s),
    decreases s.len() - k,
{
    if k < s.len() {
        lemma_digits_value_prefix(s, k + 1);
        assert(s.take(k + 1).drop_last() == s.take(k));
    } else {
        assert(s.take(k) == s);
    }
}

/// The value of the digit `c`.
pub fn digit_of(c: char) -> (d: u8)
    requires
        is_digit(c),
    ensures
        d == digit_value(c),
        d <= 9,
{
    (c as u32 - '0' as u32) as u8
}

/// The number that the digits of `v` stand for, or `None` when it is
/// larger than `max`.
pub fn digits_value_of(v: &Vec<char>, max: u64) -> (r: Option<u64>)
    requires
        all_digits(v@),
    ensures
        r == if digits_value(v@) <= max {
            Some(digits_value(v@) as u64)
        } else {
            None
        },
{
    let mut n: u64 = 0;
    let mut i: usize = 0;
    proof {
        lemma_first_index(v@, CharClass::Digit, false);
    }
    while i < v.len()
        invariant
            i <= v.len(),
            forall|j: int| 0 <= j < v.len() ==> is_digit(#[trigger] v@[j]),
            n == digits_value(v@.take(i as int)),
            n <= max,
        decreases v.len() - i,
    {
        let d = digit_of(v[i]) as u64;
        proof {
            assert(v@.take(i + 1).drop_last() == v@.take(i as int));
            lemma_digits_value_prefix(v@, i + 1);
        }
        if d > max || n > (max - d) / 10 {
            return None;
        }
        n = n * 10 + d;
        i += 1;
    }
    assert(v@.take(v.len() as int) == v@);
    Some(n)
}

/// Exec counterpart of `parse_unsigned`.
pub fn parse_unsigned_of(v: &Vec<char>, max: u64) -> (r: Option<u64>)
    ensures
        r == match parse_unsigned(v@, max as nat) {
            Some(n) => Some(n as u64),
            None => None,
        },
{
    let d = if v.len() > 0 && v[0] == '+' {
        slice(v, 1, v.len())
    } else {
        copy(v)
    };
    proof {
        if v.len() > 0 && v@[0] == '+' {
            assert(v@.subrange(1, v.len() as int) == v@.drop_first());
        }
    }
    if d.len() == 0 || first_index_of(&d, CharClass::Digit, false) != d.len() {
        return None;
    }
    digits_value_of(&d, max)
}

/// The decimal digit that stands for `d`.
pub open spec fn digit_char(d: nat) -> char {
    ('0' as int + d) as char
}

/// The decimal representation of `n`, without leading zeros.
pub open spec fn decimal(n: nat) -> Seq<char>
    decreases n,
{
    if n < 10 {
        seq![digit_char(n)]
    } else {
        decimal(n / 10).push(digit_char(n % 10))
    }
}

/// Exec counterpart of `decimal`.
pub fn decimal_of(n: u64) -> (r: Vec<char>)
    ensures
        r@ == decimal(n as nat),
    decreases n,
{
    if n < 10 {
        let mut r: Vec<char> = Vec::new();
        r.push(char_of_digit(n as u8));
        assert(r@ == seq![digit_char(n as nat)]);
        r
    } else {
        let mut r = decimal_of(n / 10);
        r.push(char_of_digit((n % 10) as u8));
        r
    }
}

/// The character for the digit `d`.
pub fn char_of_digit(d: u8) -> (c: char)
    requires
        d <= 9,
    ensures
        c == digit_char(d as nat),
{
    (48u8 + d) as char
}


/// Stripping `cls` from both ends of an already stripped sequence changes
/// nothing.
pub proof fn lemma_strip_idempotent(s: Seq<char>, cls: CharClass)
    ensures
        strip(strip(s, cls), cls) == strip(s, cls),
{
    let a = strip_start(s, cls);
    let t = strip(s, cls);
    lemma_first_index(s, cls, false);
    lemma_trimmed_end(a, cls);
    if t.len() > 0 {
        assert(t[0] == a[0]);
        assert(a[0] == s[first_index(s, cls, false)]);
        assert(t[t.len() - 1] == a[trimmed_end(a, cls) - 1]);
    }
    lemma_first_index_is(t, cls, false, 0);
    assert(strip_start(t, cls) == t);
    lemma_trimmed_end_is(t, cls, t.len() as int);
    assert(t.take(t.len() as int) == t);
}

/// Trimming twice is the same as trimming once.
pub proof fn lemma_trim_idempotent(s: Seq<char>)
    ensures
        trim(trim(s)) == trim(s),
{
    lemma_strip_idempotent(s, CharClass::Whitespace);
}


/// Exec counterpart of `lowercase`, on characters.
pub fn lowercase_of(v: &Vec<char>) -> (r: Vec<char>)
    ensures
        r@ == lowercase(v@),
{
    let s = string_of(v);
    let l = s.as_str().to_lowercase();
    chars_of(l.as_str())
}

/// `s` with every `from` replaced by `to`.
pub open spec fn replace_char(s: Seq<char>, from: char, to: char) -> Seq<char> {
    Seq::new(s.len(), |i: int| if s[i] == from { to } else { s[i] })
}

/// Exec counterpart of `replace_char`.
pub fn replace_char_of(v: &Vec<char>, from: char, to: char) -> (r: Vec<char>)
    ensures
        r@ == replace_char(v@, from, to),
{
    let mut r: Vec<char> = Vec::new();
    let mut i: usize = 0;
    while i < v.len()
        invariant
            i <= v.len(),
            r@ == replace_char(v@.take(i as int), from, to),
        decreases v.len() - i,
    {
        r.push(if v[i] == from { to } else { v[i] });
        i += 1;
        assert(r@ =~= replace_char(v@.take(i as int), from, to));
    }
    assert(v@.take(v.len() as int) == v@);
    r
}

/// The vector behind an option, as characters.
pub open spec fn opt_view(o: Option<Vec<char>>) -> Option<Seq<char>> {
    match o {
        Some(v) => Some(v@),
        None => None,
    }
}

/// The string behind an option, as characters.
pub open spec fn opt_str_view(o: Option<String>) -> Option<Seq<char>> {
    match o {
        Some(v) => Some(v@),
        None => None,
    }
}

/// Turns optional characters into an optional string.
pub fn opt_string_of(o: &Option<Vec<char>>) -> (r: Option<String>)
    ensures
        opt_str_view(r) == opt_view(*o),
{
    match o {
        Some(v) => Some(string_of(v)),
        None => None,
    }
}

/// The index of the first line from `i` on that starts with `prefix`, or
/// `lines.len()`.
pub open spec fn first_line_with(lines: Seq<Seq<char>>, prefix: Seq<char>, i: int) -> int
    decreases lines.len() - i,
{
    if i < 0 || i >= lines.len() {
        lines.len() as int
    } else if starts_with(lines[i], prefix) {
        i
    } else {
        first_line_with(lines, prefix, i + 1)
    }
}

/// Exec counterpart of `first_line_with` from the first line on.
pub fn first_line_with_of(lines: &Vec<Vec<char>>, prefix: &str) -> (r: usize)
    ensures
        r == first_line_with(views(lines@), prefix@, 0),
        r <= lines.len(),
{
    let p = chars_of(prefix);
    let mut i: usize = 0;
    while i < lines.len()
        invariant
            i <= lines.len(),
            p@ == prefix@,
            first_line_with(views(lines@), prefix@, 0) == first_line_with(
                views(lines@),
                prefix@,
                i as int,
            ),
        decreases lines.len() - i,
    {
        assert(views(lines@)[i as int] == lines@[i as int]@);
        if has_prefix(&lines[i], &p) {
            return i;
        }
        i += 1;
    }
    i
}


/// Exec counterpart of `parse_signed`, for a type whose values range from
/// `min` to `max`.
pub fn parse_signed_of(v: &Vec<char>, min: i128, max: i128) -> (r: Option<i128>)
    requires
        -0x8000_0000_0000_0000 <= min <= 0 <= max <= 0x7fff_ffff_ffff_ffff,
    ensures
        r == match parse_signed(v@, min as int, max as int) {
            Some(n) => Some(n as i128),
            None => None,
        },
{
    let signed = v.len() > 0 && (v[0] == '+' || v[0] == '-');
    let neg = v.len() > 0 && v[0] == '-';
    let d = if signed {
        slice(v, 1, v.len())
    } else {
        copy(v)
    };
    proof {
        if signed {
            assert(v@.subrange(1, v.len() as int) == v@.drop_first());
        }
    }
    if d.len() == 0 || first_index_of(&d, CharClass::Digit, false) != d.len() {
        return None;
    }
    if neg {
        match digits_value_of(&d, (-min) as u64) {
            Some(n) => Some(-(n as i128)),
            None => None,
        }
    } else {
        match digits_value_of(&d, max as u64) {
            Some(n) => Some(n as i128),
            None => None,
        }
    }
}

/// The decimal representation of an integer, with `-` before a negative
/// one.
pub open spec fn signed_decimal(n: int) -> Seq<char> {
    if n < 0 {
        seq!['-'] + decimal((-n) as nat)
    } else {
        decimal(n as nat)
    }
}

/// Exec counterpart of `signed_decimal`.
pub fn signed_decimal_of(n: i128) -> (r: Vec<char>)
    requires
        -0x8000_0000_0000_0000 <= n <= 0x7fff_ffff_ffff_ffff,
    ensures
        r@ == signed_decimal(n as int),
{
    if n < 0 {
        let mut r: Vec<char> = Vec::new();
        r.push('-');
        append(&mut r, &decimal_of((-n) as u64));
        r
    } else {
        decimal_of(n as u64)
    }
}

/// The character sequences of a slice of strings.
pub open spec fn str_views(parts: Seq<&str>) -> Seq<Seq<char>> {
    Seq::new(parts.len(), |i: int| parts[i]@)
}

/// The character sequences of a sequence of strings.
pub open spec fn string_views(parts: Seq<String>) -> Seq<Seq<char>> {
    Seq::new(parts.len(), |i: int| parts[i]@)
}

/// The views of strings with one more string are the views with one
/// more view.
pub proof fn lemma_string_views_push(v: Seq<String>, x: String)
    ensures
        string_views(v.push(x)) == string_views(v).push(x@),
{
    assert(string_views(v.push(x)) =~= string_views(v).push(x@));
}


/// The length of `s` up to and including its last `c`; 0 when `c` does
/// not occur in `s`.
pub open spec fn through_last(s: Seq<char>, c: char) -> int
    decreases s.len(),
{
    if s.len() == 0 {
        0
    } else if s.last() == c {
        s.len() as int
    } else {
        through_last(s.drop_last(), c)
    }
}

/// `through_last` is within the sequence, the character before it is
/// `c`, and `c` does not occur from it on.
pub proof fn lemma_through_last(s: Seq<char>, c: char)
    ensures
        0 <= through_last(s, c) <= s.len(),
        through_last(s, c) > 0 ==> s[through_last(s, c) - 1] == c,
        forall|j: int| through_last(s, c) <= j < s.len() ==> #[trigger] s[j] != c,
    decreases s.len(),
{
    if s.len() > 0 && s.last() != c {
        let t = s.drop_last();
        lemma_through_last(t, c);
        assert forall|j: int| through_last(s, c) <= j < s.len() implies #[trigger] s[j] != c by {
            if j < t.len() {
                assert(s[j] == t[j]);
            }
        }
    }
}

/// Exec counterpart of `through_last`.
pub fn through_last_of(v: &Vec<char>, c: char) -> (e: usize)
    ensures
        e == through_last(v@, c),
        e <= v.len(),
{
    let mut e: usize = v.len();
    proof {
        assert(v@.take(v.len() as int) == v@);
    }
    while e > 0 && v[e - 1] != c
        invariant
            e <= v.len(),
            through_last(v@, c) == through_last(v@.take(e as int), c),
        decreases e,
    {
        proof {
            assert(v@.take(e as int).drop_last() == v@.take(e - 1));
        }
        e -= 1;
    }
    e
}


/// The words of a text: its parts between white space.
pub open spec fn words(s: Seq<char>) -> Seq<Seq<char>>
    decreases s.len(),
{
    let t = strip_start(s, CharClass::Whitespace);
    let e = first_index(t, CharClass::Whitespace, true);
    if 0 < e <= t.len() <= s.len() {
        seq![t.take(e)] + words(t.skip(e))
    } else {
        Seq::empty()
    }
}

/// Exec counterpart of `words`.
pub fn words_of(v: &Vec<char>) -> (r: Vec<Vec<char>>)
    ensures
        views(r@) == words(v@),
{
    let mut r: Vec<Vec<char>> = Vec::new();
    let mut rest = copy(v);
    proof {
        assert(views(r@) + words(v@) =~= words(v@));
    }
    loop
        invariant
            words(v@) == views(r@) + words(rest@),
        decreases rest.len(),
    {
        let t = strip_start_of(&rest, CharClass::Whitespace);
        proof {
            lemma_first_index(rest@, CharClass::Whitespace, false);
            lemma_first_index(t@, CharClass::Whitespace, true);
        }
        if t.len() == 0 {
            assert(views(r@) + Seq::<Seq<char>>::empty() =~= views(r@));
            return r;
        }
        let e = first_index_of(&t, CharClass::Whitespace, true);
        if e == 0 {
            assert(views(r@) + Seq::<Seq<char>>::empty() =~= views(r@));
            return r;
        }
        let word = slice(&t, 0, e);
        let next = slice(&t, e, t.len());
        proof {
            assert(t@.take(e as int) == word@);
            assert(t@.skip(e as int) == next@);
            lemma_views_push(r@, word);
            assert(views(r@) + (seq![word@] + words(next@)) =~= views(r@).push(word@) + words(
                next@,
            ));
        }
        r.push(word);
        rest = next;
    }
}

/// `s` without every leading occurrence of the non-empty pattern `p`.
pub open spec fn without_leading(s: Seq<char>, p: Seq<char>) -> Seq<char>
    decreases s.len(),
{
    if p.len() > 0 && starts_with(s, p) {
        without_leading(s.skip(p.len() as int), p)
    } else {
        s
    }
}

/// Exec counterpart of `without_leading`.
pub fn without_leading_of(v: &Vec<char>, p: &Vec<char>) -> (r: Vec<char>)
    ensures
        r@ == without_leading(v@, p@),
{
    let mut rest = copy(v);
    if p.len() == 0 {
        return rest;
    }
    while has_prefix(&rest, p)
        invariant
            p.len() > 0,
            without_leading(v@, p@) == without_leading(rest@, p@),
        decreases rest.len(),
    {
        let next = slice(&rest, p.len(), rest.len());
        assert(rest@.skip(p.len() as int) == next@);
        rest = next;
    }
    rest
}


/// The index of the last of the first `n` pieces that is a name: neither
/// empty nor `.`; -1 where there is none.
pub open spec fn last_name_piece(pieces: Seq<Seq<char>>, n: int) -> int
    decreases n,
{
    if n <= 0 {
        -1
    } else if pieces[n - 1].len() > 0 && pieces[n - 1] != seq!['.'] {
        n - 1
    } else {
        last_name_piece(pieces, n - 1)
    }
}

/// The last component of a path with `/` between its components: the
/// last piece that is neither empty nor `.`. A path that ends in `..`
/// has none, and neither has one without components.
pub open spec fn file_name(path: Seq<char>) -> Option<Seq<char>> {
    let pieces = split(path, '/');
    let k = last_name_piece(pieces, pieces.len() as int);
    if k < 0 || pieces[k] == seq!['.', '.'] {
        None
    } else {
        Some(pieces[k])
    }
}

/// Exec counterpart of `file_name`.
pub fn file_name_of(path: &str) -> (r: Option<String>)
    ensures
        opt_str_view(r) == file_name(path@),
{
    let pieces = split_of(&chars_of(path), '/');
    let ghost ps = views(pieces@);
    let mut n: usize = pieces.len();
    while n > 0
        invariant
            n <= pieces.len(),
            ps == views(pieces@),
            ps == split(path@, '/'),
            last_name_piece(ps, pieces.len() as int) == last_name_piece(ps, n as int),
        decreases n,
    {
        let p = &pieces[n - 1];
        assert(ps[n - 1] == p@);
        let dot = p.len() == 1 && p[0] == '.';
        proof {
            if dot {
                assert(p@ =~= seq!['.']);
            } else if p.len() == 1 {
                assert(p@[0] != seq!['.'][0]);
            }
        }
        if p.len() > 0 && !dot {
            let dots = p.len() == 2 && p[0] == '.' && p[1] == '.';
            proof {
                if dots {
                    assert(p@ =~= seq!['.', '.']);
                } else if p.len() == 2 {
                    assert(p@[0] != seq!['.', '.'][0] || p@[1] != seq!['.', '.'][1]);
                }
            }
            if dots {
                return None;
            }
            return Some(string_of(p));
        }
        n -= 1;
    }
    None
}

} // verus!
