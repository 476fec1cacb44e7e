//! Moving between strings and their characters.
//!
//! Every rule of this crate is stated over `Seq<char>`, the view of a string.
//! The executable code reads a string into a `Vec<char>` once, works on indices,
//! and builds its answer character by character.

use vstd::prelude::*;

verus! {

/// The characters of a string slice, in order.
pub fn to_chars(s: &str) -> (chars: Vec<char>)
    ensures
        chars@ == s@,
{
    let mut chars: Vec<char> = Vec::new();
    for c in it: s.chars()
        invariant
            chars@ == s@.take(it.index() as int),
            it.seq() == s@,
    {
        chars.push(c);
    }
    chars
}

/// `String::push` of the standard library: the string afterwards is the string
/// before with `c` appended as its last character.
#[verifier::external_body]
fn push_char(s: &mut String, c: char)
    ensures
        final(s)@ == old(s)@.push(c),
{
    s.push(c);
}

/// The string that holds `chars[from..to]`.
pub(crate) fn from_range(chars: &Vec<char>, from: usize, to: usize) -> (s: String)
    requires
        from <= to <= chars.len(),
    ensures
        s@ == chars@.subrange(from as int, to as int),
{
    let mut s = String::new();
    let mut i: usize = from;
    while i < to
        invariant
            from <= i <= to <= chars.len(),
            s@ == chars@.subrange(from as int, i as int),
        decreases to - i,
    {
        push_char(&mut s, chars[i]);
        i += 1;
    }
    s
}

/// The string that holds the given characters, in order.
pub fn from_chars(chars: &Vec<char>) -> (s: String)
    ensures
        s@ == chars@,
{
    from_range(chars, 0, chars.len())
}

/// Appends `chars[from..to]` to `out`.
pub(crate) fn extend_range(out: &mut Vec<char>, chars: &Vec<char>, from: usize, to: usize)
    requires
        from <= to <= chars.len(),
    ensures
        final(out)@ == old(out)@ + chars@.subrange(from as int, to as int),
{
    let mut i: usize = from;
    while i < to
        invariant
            from <= i <= to <= chars.len(),
            out@ == old(out)@ + chars@.subrange(from as int, i as int),
        decreases to - i,
    {
        out.push(chars[i]);
        i += 1;
    }
}

/// Whether two character vectors hold the same text.
pub fn same_text(a: &Vec<char>, b: &Vec<char>) -> (same: bool)
    ensures
        same == (a@ == b@),
{
    if a.len() != b.len() {
        return false;
    }
    let mut i: usize = 0;
    while i < a.len()
        invariant
            i <= a.len(),
            a.len() == b.len(),
            a@.take(i as int) == b@.take(i as int),
        decreases a.len() - i,
    {
        if a[i] != b[i] {
            return false;
        }
        i += 1;
    }
    assert(a@.take(a.len() as int) == a@);
    assert(b@.take(b.len() as int) == b@);
    true
}

/// Whether `needle` stands in `hay` at index `at`.
pub open spec fn occurs_at(hay: Seq<char>, needle: Seq<char>, at: int) -> bool {
    0 <= at && at + needle.len() <= hay.len() && hay.subrange(at, at + needle.len()) == needle
}

/// Whether `needle` stands in `hay` at index `at`.
pub fn matches_at(hay: &Vec<char>, needle: &Vec<char>, at: usize) -> (found: bool)
    ensures
        found == occurs_at(hay@, needle@, at as int),
{
    if at > hay.len() || needle.len() > hay.len() - at {
        return false;
    }
    let mut i: usize = 0;
    while i < needle.len()
        invariant
            i <= needle.len(),
            at + needle.len() <= hay.len(),
            hay@.subrange(at as int, at + i) == needle@.take(i as int),
        decreases needle.len() - i,
    {
        if hay[at + i] != needle[i] {
            return false;
        }
        i += 1;
    }
    assert(needle@.take(needle.len() as int) == needle@);
    true
}

/// `text` with every occurrence of `from` replaced by `to`, found from left to
/// right, none overlapping another. An empty `from` occurs before every
/// character and at the end.
pub open spec fn replace_all(text: Seq<char>, from: Seq<char>, to: Seq<char>) -> Seq<char>
    decreases text.len(),
{
    if text.len() == 0 {
        if from.len() == 0 {
            to
        } else {
            text
        }
    } else if from.len() == 0 {
        to.push(text[0]) + replace_all(text.skip(1), from, to)
    } else if from.is_prefix_of(text) {
        to + replace_all(text.skip(from.len() as int), from, to)
    } else {
        seq![text[0]] + replace_all(text.skip(1), from, to)
    }
}

/// `text` with every occurrence of `from` replaced by `to`.
pub fn replace(text: &str, from: &str, to: &str) -> (replaced: String)
    ensures
        replaced@ == replace_all(text@, from@, to@),
{
    let t = to_chars(text);
    let f = to_chars(from);
    let r = to_chars(to);
    let mut out: Vec<char> = Vec::new();
    let mut i: usize = 0;
    assert(t@.skip(0) == t@);
    while i < t.len()
        invariant
            i <= t.len(),
            out@ + replace_all(t@.skip(i as int), f@, r@) == replace_all(t@, f@, r@),
        decreases t.len() - i,
    {
        let ghost rest = t@.skip(i as int);
        if f.len() == 0 {
            extend_range(&mut out, &r, 0, r.len());
            out.push(t[i]);
            assert(rest.skip(1) == t@.skip(i + 1));
            i += 1;
        } else if matches_at(&t, &f, i) {
            extend_range(&mut out, &r, 0, r.len());
            assert(rest.skip(f.len() as int) == t@.skip(i + f.len()));
            i += f.len();
        } else {
            out.push(t[i]);
            proof {
                if f@.is_prefix_of(rest) {
                    assert(rest.take(f.len() as int) == t@.subrange(i as int, i + f.len()));
                }
                assert(rest.skip(1) == t@.skip(i + 1));
            }
            i += 1;
        }
    }
    if f.len() == 0 {
        extend_range(&mut out, &r, 0, r.len());
    }
    from_chars(&out)
}

/// `list` with `head` put before its first piece.
pub open spec fn prepend(head: Seq<char>, list: Seq<Seq<char>>) -> Seq<Seq<char>> {
    seq![head + list[0]] + list.skip(1)
}

/// The pieces of `text` between the occurrences of `separator`, found from
/// left to right, none overlapping another. There is always at least one
/// piece; text that ends with a separator ends with an empty piece. An empty
/// separator splits nothing.
pub open spec fn split_by(text: Seq<char>, separator: Seq<char>) -> Seq<Seq<char>>
    decreases text.len(),
{
    if separator.len() == 0 {
        seq![text]
    } else if text.len() == 0 {
        seq![text]
    } else if separator.is_prefix_of(text) {
        seq![Seq::<char>::empty()] + split_by(text.skip(separator.len() as int), separator)
    } else {
        prepend(seq![text[0]], split_by(text.skip(1), separator))
    }
}

/// There is always at least one piece.
pub proof fn lemma_split_by_not_empty(text: Seq<char>, separator: Seq<char>)
    ensures
        split_by(text, separator).len() >= 1,
    decreases text.len(),
{
    if separator.len() > 0 && text.len() > 0 {
        if separator.is_prefix_of(text) {
            lemma_split_by_not_empty(text.skip(separator.len() as int), separator);
        } else {
            lemma_split_by_not_empty(text.skip(1), separator);
        }
    }
}

/// The text of each string, in order.
pub open spec fn texts(strings: Seq<String>) -> Seq<Seq<char>> {
    strings.map_values(|s: String| s@)
}

/// The pieces of `text` between the occurrences of `separator`.
pub fn split(text: &str, separator: &str) -> (pieces: Vec<String>)
    ensures
        texts(pieces@) == split_by(text@, separator@),
{
    let t = to_chars(text);
    let s = to_chars(separator);
    let mut pieces: Vec<String> = Vec::new();
    if s.len() == 0 {
        pieces.push(text.to_owned());
        return pieces;
    }
    let mut start: usize = 0;
    let mut i: usize = 0;
    proof {
        assert(t@.skip(0) == t@);
        lemma_split_by_not_empty(t@, s@);
    }
    while i < t.len()
        invariant
            start <= i <= t.len(),
            s.len() > 0,
            texts(pieces@) + prepend(
                t@.subrange(start as int, i as int),
                split_by(t@.skip(i as int), s@),
            ) == split_by(t@, s@),
        decreases t.len() - i,
    {
        let ghost rest = t@.skip(i as int);
        let ghost head = t@.subrange(start as int, i as int);
        if matches_at(&t, &s, i) {
            pieces.push(from_range(&t, start, i));
            proof {
                assert(rest.skip(s.len() as int) == t@.skip(i + s.len()));
                lemma_split_by_not_empty(t@.skip(i + s.len()), s@);
            }
            i += s.len();
            start = i;
        } else {
            proof {
                if s@.is_prefix_of(rest) {
                    assert(rest.take(s.len() as int) == t@.subrange(i as int, i + s.len()));
                }
                let after = split_by(t@.skip(i + 1), s@);
                assert(rest.skip(1) == t@.skip(i + 1));
                lemma_split_by_not_empty(t@.skip(i + 1), s@);
                assert(head + (seq![rest[0]] + after[0]) == t@.subrange(start as int, i + 1)
                    + after[0]);
            }
            i += 1;
        }
    }
    pieces.push(from_range(&t, start, t.len()));
    pieces
}

} // verus!
