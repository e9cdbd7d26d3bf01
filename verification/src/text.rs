//! Text as sequences of characters: the predicates that the contracts of this
//! crate are written in, and the executable functions that decide them.

use vstd::prelude::*;
use vstd::slice::slice_subrange;
use vstd::string::*;

verus! {

/// Whether `c` is white space: the code points that Unicode marks `White_Space`.
pub open spec fn is_space(c: char) -> bool {
    let n = c as u32;
    ||| 0x09 <= n <= 0x0d
    ||| n == 0x20
    ||| n == 0x85
    ||| n == 0xa0
    ||| n == 0x1680
    ||| 0x2000 <= n <= 0x200a
    ||| n == 0x2028
    ||| n == 0x2029
    ||| n == 0x202f
    ||| n == 0x205f
    ||| n == 0x3000
}

/// Whether `needle` stands in `hay` at offset `at`.
pub open spec fn occurs_at(hay: Seq<char>, needle: Seq<char>, at: int) -> bool {
    &&& 0 <= at
    &&& at + needle.len() <= hay.len()
    &&& hay.subrange(at, at + needle.len()) == needle
}

/// Whether `hay` begins with `prefix`.
pub open spec fn begins_with(hay: Seq<char>, prefix: Seq<char>) -> bool {
    occurs_at(hay, prefix, 0)
}

/// Whether `hay` ends with `suffix`.
pub open spec fn ends_with(hay: Seq<char>, suffix: Seq<char>) -> bool {
    occurs_at(hay, suffix, hay.len() - suffix.len())
}

/// Whether `needle` stands somewhere in `hay`. The empty text stands everywhere.
pub open spec fn contains_text(hay: Seq<char>, needle: Seq<char>) -> bool {
    exists|at: int| occurs_at(hay, needle, at)
}

/// `text` without `suffix` at its end, if it ends with it; else `text` itself.
pub open spec fn without_suffix(text: Seq<char>, suffix: Seq<char>) -> Seq<char> {
    if ends_with(text, suffix) {
        text.take(text.len() - suffix.len())
    } else {
        text
    }
}

/// `text` with every trailing repetition of `suffix` removed.
pub open spec fn without_trailing(text: Seq<char>, suffix: Seq<char>) -> Seq<char>
    decreases text.len(),
{
    if suffix.len() > 0 && ends_with(text, suffix) {
        without_trailing(text.take(text.len() - suffix.len()), suffix)
    } else {
        text
    }
}

/// The texts of a list of strings.
pub open spec fn texts(v: Seq<String>) -> Seq<Seq<char>> {
    Seq::new(v.len(), |i: int| v[i]@)
}

/// The text of a string that may be missing.
pub open spec fn text_of(s: Option<String>) -> Option<Seq<char>> {
    match s {
        Some(t) => Some(t@),
        None => None,
    }
}

/// Whether `c` is white space.
pub fn char_is_space(c: char) -> (b: bool)
    ensures
        b == is_space(c),
{
    let n: u32 = c as u32;
    (0x09 <= n && n <= 0x0d) || n == 0x20 || n == 0x85 || n == 0xa0 || n == 0x1680 || (0x2000 <= n
        && n <= 0x200a) || n == 0x2028 || n == 0x2029 || n == 0x202f || n == 0x205f || n == 0x3000
}

/// The characters of `s`, in order.
pub fn to_chars(s: &str) -> (v: Vec<char>)
    ensures
        v@ == s@,
{
    let mut v: Vec<char> = Vec::new();
    for c in it: s.chars()
        invariant
            v@ == it.seq().take(it.index()),
            it.seq() == s@,
    {
        v.push(c);
    }
    v
}

/// The characters `from..to` of `s` as a string of their own.
pub fn slice_string(s: &str, from: usize, to: usize) -> (r: String)
    requires
        from <= to <= s@.len(),
    ensures
        r@ == s@.subrange(from as int, to as int),
{
    s.substring_char(from, to).to_owned()
}

/// Whether `needle` stands in `hay` at offset `at`.
pub fn text_occurs_at(hay: &[char], needle: &[char], at: usize) -> (b: bool)
    ensures
        b == occurs_at(hay@, needle@, at as int),
{
    if at > hay.len() || needle.len() > hay.len() - at {
        return false;
    }
    let n = needle.len();
    let mut i: usize = 0;
    while i < n
        invariant
            i <= n,
            n == needle@.len(),
            at + n <= hay.len(),
            forall|j: int| 0 <= j < i ==> hay@[at + j] == needle@[j],
        decreases n - i,
    {
        if hay[at + i] != needle[i] {
            assert(hay@.subrange(at as int, at + n)[i as int] != needle@[i as int]);
            return false;
        }
        i += 1;
    }
    assert(hay@.subrange(at as int, at + n) =~= needle@);
    true
}

/// Whether `hay` begins with `prefix`.
pub fn text_begins_with(hay: &[char], prefix: &[char]) -> (b: bool)
    ensures
        b == begins_with(hay@, prefix@),
{
    text_occurs_at(hay, prefix, 0)
}

/// Whether `hay` ends with `suffix`.
pub fn text_ends_with(hay: &[char], suffix: &[char]) -> (b: bool)
    ensures
        b == ends_with(hay@, suffix@),
{
    if suffix.len() > hay.len() {
        false
    } else {
        text_occurs_at(hay, suffix, hay.len() - suffix.len())
    }
}

/// Whether `needle` stands somewhere in `hay`.
pub fn text_contains(hay: &[char], needle: &[char]) -> (b: bool)
    ensures
        b == contains_text(hay@, needle@),
{
    if needle.len() > hay.len() {
        return false;
    }
    if needle.len() == 0 {
        assert(occurs_at(hay@, needle@, 0)) by {
            assert(hay@.subrange(0, 0) =~= needle@);
        }
        return true;
    }
    let last = hay.len() - needle.len();
    let mut at: usize = 0;
    while at <= last
        invariant
            at <= last + 1,
            last < hay.len(),
            last == hay@.len() - needle@.len(),
            forall|k: int| 0 <= k < at ==> !occurs_at(hay@, needle@, k),
        decreases last + 1 - at,
    {
        if text_occurs_at(hay, needle, at) {
            return true;
        }
        at += 1;
    }
    false
}

/// Whether two strings hold the same characters.
pub fn same_text(a: &str, b: &str) -> (r: bool)
    ensures
        r == (a@ == b@),
{
    let x = to_chars(a);
    let y = to_chars(b);
    let r = x.len() == y.len() && text_occurs_at(x.as_slice(), y.as_slice(), 0);
    proof {
        if x@.len() == y@.len() {
            assert(x@.subrange(0, x@.len() as int) =~= x@);
        }
    }
    r
}

/// The part `from..to` of `v`.
pub fn part(v: &Vec<char>, from: usize, to: usize) -> (r: &[char])
    requires
        from <= to <= v@.len(),
    ensures
        r@ == v@.subrange(from as int, to as int),
{
    slice_subrange(v.as_slice(), from, to)
}

/// Repeated removal ends where the text no longer ends with the suffix.
pub proof fn lemma_without_trailing_settles(text: Seq<char>, suffix: Seq<char>)
    ensures
        suffix.len() > 0 ==> !ends_with(without_trailing(text, suffix), suffix),
        without_trailing(without_trailing(text, suffix), suffix) == without_trailing(text, suffix),
        without_trailing(text, suffix).len() <= text.len(),
    decreases text.len(),
{
    if suffix.len() > 0 && ends_with(text, suffix) {
        lemma_without_trailing_settles(text.take(text.len() - suffix.len()), suffix);
    }
}

/// A text that was given the suffix once more loses it again.
pub proof fn lemma_without_trailing_appended(text: Seq<char>, suffix: Seq<char>)
    ensures
        without_trailing(text + suffix, suffix) == without_trailing(text, suffix),
{
    if suffix.len() > 0 {
        let whole = text + suffix;
        assert(whole.subrange(whole.len() - suffix.len(), whole.len() as int) =~= suffix);
        assert(whole.take(whole.len() - suffix.len()) =~= text);
    } else {
        assert(text + suffix =~= text);
    }
}

} // verus!
