//! Paths as text.
//!
//! A path is a sequence of characters in which `/` and `\` both separate
//! segments. Nothing here asks the operating system anything: the same text
//! has the same parent and the same final segment on every platform.
//!
//! Two segments are not names. A single dot stands for the directory it is
//! written in: behind a separator it is passed over like the separator. Two
//! dots stand for the directory above: a path that ends with them has no
//! final segment.

use crate::text::{extend_range, from_chars, from_range, texts, to_chars};
use vstd::prelude::*;

verus! {

/// Whether `c` separates two segments of a path.
pub open spec fn is_separator(c: char) -> bool {
    c == '/' || c == '\\'
}

/// Whether `path` ends with a single dot behind a separator.
pub open spec fn ends_with_dot_segment(path: Seq<char>) -> bool {
    path.len() >= 2 && path.last() == '.' && is_separator(path[path.len() - 2])
}

/// `path` without what ends it and names nothing: separators, and single dots
/// behind a separator.
pub open spec fn trim_end(path: Seq<char>) -> Seq<char>
    decreases path.len(),
{
    if path.len() > 0 && (is_separator(path.last()) || ends_with_dot_segment(path)) {
        trim_end(path.drop_last())
    } else {
        path
    }
}

/// Whether the segment is a single dot or two dots.
pub open spec fn is_dots(segment: Seq<char>) -> bool {
    segment == seq!['.'] || segment == seq!['.', '.']
}

/// The index at which the last segment of `path` begins: the least index from
/// which no separator follows.
pub open spec fn segment_start(path: Seq<char>) -> int
    decreases path.len(),
{
    if path.len() == 0 || is_separator(path.last()) {
        path.len() as int
    } else {
        segment_start(path.drop_last())
    }
}

/// The final segment of `path`: the name that its last segment gives, with
/// separators and single dots at the end of the path set aside. There is none
/// in the empty path, in a path made of separators only, in a path that is a
/// single dot, and in a path that ends with two dots.
pub open spec fn final_segment(path: Seq<char>) -> Option<Seq<char>> {
    let p = trim_end(path);
    if p.len() == 0 || is_dots(p.skip(segment_start(p))) {
        None
    } else {
        Some(p.skip(segment_start(p)))
    }
}

/// The path that holds the last segment of `path`: what stands before that
/// segment, without the separators and single dots that end it; the single
/// leading separator where nothing else stands before it; the empty path
/// where `path` is one segment. The empty path and a path made of separators
/// only have no parent.
pub open spec fn parent_of(path: Seq<char>) -> Option<Seq<char>> {
    let p = trim_end(path);
    if p.len() == 0 {
        None
    } else {
        let before = p.take(segment_start(p));
        if before.len() > 0 && trim_end(before).len() == 0 {
            Some(before.take(1))
        } else {
            Some(trim_end(before))
        }
    }
}

/// `name` placed in the directory `dir`. A separator is put between them
/// unless `dir` is empty or already ends with one.
pub open spec fn joined(dir: Seq<char>, name: Seq<char>) -> Seq<char> {
    if dir.len() == 0 || is_separator(dir.last()) {
        dir + name
    } else {
        dir.push('/') + name
    }
}

/// `path`, then its parent, then the parent of that, to the end of the chain.
pub open spec fn ancestor_chain(path: Seq<char>) -> Seq<Seq<char>>
    decreases path.len(),
{
    match parent_of(path) {
        Some(up) if up.len() < path.len() => seq![path] + ancestor_chain(up),
        _ => seq![path],
    }
}

/// What `trim_end` leaves: a prefix of the path that ends with no separator
/// and with no single dot behind one. Something is left of every path that
/// does not begin with a separator.
pub proof fn lemma_trim_end(path: Seq<char>)
    ensures
        trim_end(path).len() <= path.len(),
        trim_end(path) == path.take(trim_end(path).len() as int),
        trim_end(path).len() > 0 ==> !is_separator(trim_end(path).last()),
        !ends_with_dot_segment(trim_end(path)),
        path.len() > 0 && !is_separator(path[0]) ==> trim_end(path).len() > 0,
    decreases path.len(),
{
    if path.len() > 0 && (is_separator(path.last()) || ends_with_dot_segment(path)) {
        lemma_trim_end(path.drop_last());
    }
}

/// Where the last segment begins: just behind a separator or at the start of
/// the path, with no separator from there on.
pub proof fn lemma_segment_start(path: Seq<char>)
    ensures
        0 <= segment_start(path) <= path.len(),
        segment_start(path) > 0 ==> is_separator(path[segment_start(path) - 1]),
        forall|i: int| segment_start(path) <= i < path.len() ==> !is_separator(#[trigger] path[i]),
    decreases path.len(),
{
    if path.len() == 0 || is_separator(path.last()) {
    } else {
        let front = path.drop_last();
        lemma_segment_start(front);
        assert forall|i: int| segment_start(path) <= i < path.len() implies !is_separator(
            #[trigger] path[i],
        ) by {
            if i < path.len() - 1 {
                assert(front[i] == path[i]);
            }
        }
    }
}

/// A parent is shorter than its child.
pub proof fn lemma_parent_shorter(path: Seq<char>)
    ensures
        parent_of(path) matches Some(up) ==> up.len() < path.len(),
{
    let p = trim_end(path);
    lemma_trim_end(path);
    if p.len() > 0 {
        lemma_segment_start(p);
        let before = p.take(segment_start(p));
        lemma_trim_end(before);
    }
}

/// The chain of ancestors starts with the path itself and goes on with the
/// chain of its parent.
pub proof fn lemma_ancestors(path: Seq<char>)
    ensures
        ancestor_chain(path).len() >= 1,
        ancestor_chain(path)[0] == path,
        parent_of(path) matches Some(up) ==> ancestor_chain(path) == seq![path] + ancestor_chain(up),
        parent_of(path) is None ==> ancestor_chain(path) == seq![path],
{
    lemma_parent_shorter(path);
}

/// What a final segment is made of: at least one character, none of them a
/// separator, and more than one or two dots. Where there is one, more is left
/// of the path than a single dot.
pub proof fn lemma_final_segment(path: Seq<char>)
    ensures
        final_segment(path) matches Some(name) ==> name.len() > 0 && !is_dots(name) && forall|
            i: int,
        | 0 <= i < name.len() ==> !is_separator(#[trigger] name[i]),
        final_segment(path) is Some ==> trim_end(path).len() > 0 && trim_end(path) != seq!['.'],
{
    let p = trim_end(path);
    lemma_trim_end(path);
    lemma_segment_start(p);
    if p == seq!['.'] {
        assert(p.skip(segment_start(p)) == p);
    }
}

/// What is trimmed off a path is trimmed off its tail alone, where more is
/// left of the tail than a single dot.
pub proof fn lemma_trim_end_of_tail(front: Seq<char>, tail: Seq<char>)
    requires
        trim_end(tail).len() > 0,
        trim_end(tail) != seq!['.'],
    ensures
        trim_end(front + tail) == front + trim_end(tail),
    decreases tail.len(),
{
    let whole = front + tail;
    if is_separator(tail.last()) || ends_with_dot_segment(tail) {
        assert(whole.drop_last() == front + tail.drop_last());
        lemma_trim_end_of_tail(front, tail.drop_last());
    } else if tail.len() == 1 {
        assert(tail == seq![tail[0]]);
    }
}

/// The last segment begins in the tail where the tail begins a segment: where
/// its first character is no separator and what stands before it is nothing or
/// ends with one.
pub proof fn lemma_segment_start_of_tail(front: Seq<char>, tail: Seq<char>)
    requires
        tail.len() > 0,
        !is_separator(tail[0]),
        front.len() == 0 || is_separator(front.last()),
    ensures
        segment_start(front + tail) == front.len() + segment_start(tail),
    decreases tail.len(),
{
    let whole = front + tail;
    if !is_separator(tail.last()) {
        assert(whole.drop_last() == front + tail.drop_last());
        if tail.len() > 1 {
            lemma_segment_start_of_tail(front, tail.drop_last());
        }
    }
}

/// The final segment of a path is that of its tail, where the tail begins a
/// segment and ends with a name.
pub proof fn lemma_final_segment_of_tail(front: Seq<char>, tail: Seq<char>)
    requires
        tail.len() > 0,
        !is_separator(tail[0]),
        front.len() == 0 || is_separator(front.last()),
        final_segment(tail) is Some,
    ensures
        final_segment(front + tail) == final_segment(tail),
{
    let kept = trim_end(tail);
    lemma_trim_end(tail);
    lemma_final_segment(tail);
    lemma_trim_end_of_tail(front, tail);
    lemma_segment_start_of_tail(front, kept);
    lemma_segment_start(kept);
    assert((front + kept).skip(front.len() + segment_start(kept)) == kept.skip(
        segment_start(kept),
    ));
}

/// A path that ends with two dots has no final segment, whatever stands
/// before them and whatever separators and single dots follow.
pub proof fn law_two_dots_are_no_name(front: Seq<char>, path: Seq<char>)
    requires
        front.len() == 0 || is_separator(front.last()),
        trim_end(path) == front + seq!['.', '.'],
    ensures
        final_segment(path) is None,
{
    let dots = seq!['.', '.'];
    lemma_segment_start_of_tail(front, dots);
    assert(segment_start(dots) == 0) by {
        reveal_with_fuel(segment_start, 3);
    }
    assert((front + dots).skip(front.len() as int) == dots);
}

/// A single dot behind a separator changes nothing: the path has the final
/// segment and the parent that it has without them.
pub proof fn law_single_dot_is_passed_over(path: Seq<char>, separator: char)
    requires
        is_separator(separator),
    ensures
        final_segment(path.push(separator).push('.')) == final_segment(path),
        parent_of(path.push(separator).push('.')) == parent_of(path),
{
    let dotted = path.push(separator).push('.');
    assert(dotted.drop_last() == path.push(separator));
    assert(path.push(separator).drop_last() == path);
    assert(trim_end(dotted) == trim_end(path)) by {
        reveal_with_fuel(trim_end, 3);
    }
}

/// Whether `c` separates two segments of a path.
pub fn is_sep(c: char) -> (sep: bool)
    ensures
        sep == is_separator(c),
{
    c == '/' || c == '\\'
}

/// The length of `chars[..end]` without the separators and single dots that
/// end it.
fn trimmed_len(chars: &Vec<char>, end: usize) -> (len: usize)
    requires
        end <= chars.len(),
    ensures
        len <= end,
        chars@.take(len as int) == trim_end(chars@.take(end as int)),
{
    let mut len = end;
    while len > 0 && (is_sep(chars[len - 1]) || (len >= 2 && chars[len - 1] == '.' && is_sep(
        chars[len - 2],
    )))
        invariant
            len <= end <= chars.len(),
            trim_end(chars@.take(len as int)) == trim_end(chars@.take(end as int)),
        decreases len,
    {
        assert(chars@.take(len as int).drop_last() == chars@.take(len - 1));
        len -= 1;
    }
    len
}

/// Where the last segment of `chars[..end]` begins.
fn last_segment_start(chars: &Vec<char>, end: usize) -> (start: usize)
    requires
        end <= chars.len(),
    ensures
        start <= end,
        start == segment_start(chars@.take(end as int)),
{
    let mut start = end;
    proof {
        lemma_segment_start(chars@.take(end as int));
    }
    while start > 0 && !is_sep(chars[start - 1])
        invariant
            start <= end <= chars.len(),
            segment_start(chars@.take(end as int)) <= start,
            forall|i: int| start <= i < end ==> !is_separator(#[trigger] chars@[i]),
        decreases start,
    {
        proof {
            lemma_segment_start(chars@.take(end as int));
        }
        start -= 1;
    }
    proof {
        lemma_segment_start(chars@.take(end as int));
        let k = segment_start(chars@.take(end as int));
        if k < start {
            assert(!is_separator(chars@.take(end as int)[start - 1]));
        }
    }
    start
}

/// The final segment of `path`, if it has one.
pub fn file_name(path: &str) -> (name: Option<String>)
    ensures
        match final_segment(path@) {
            Some(segment) => name matches Some(n) && n@ == segment,
            None => name is None,
        },
{
    let chars = to_chars(path);
    let end = trimmed_len(&chars, chars.len());
    assert(chars@.take(chars.len() as int) == chars@);
    if end == 0 {
        return None;
    }
    let start = last_segment_start(&chars, end);
    let ghost segment = chars@.take(end as int).skip(start as int);
    let one_dot = end - start == 1 && chars[start] == '.';
    let two_dots = end - start == 2 && chars[start] == '.' && chars[start + 1] == '.';
    proof {
        assert(one_dot == (segment == seq!['.'])) by {
            if one_dot {
                assert(segment == seq!['.']);
            }
            if segment == seq!['.'] {
                assert(segment.len() == 1 && segment[0] == '.');
            }
        }
        assert(two_dots == (segment == seq!['.', '.'])) by {
            if two_dots {
                assert(segment == seq!['.', '.']);
            }
        }
    }
    if one_dot || two_dots {
        None
    } else {
        Some(from_range(&chars, start, end))
    }
}

/// The parent of `path`, if it has one.
pub fn parent(path: &str) -> (up: Option<String>)
    ensures
        match parent_of(path@) {
            Some(above) => up matches Some(p) && p@ == above,
            None => up is None,
        },
{
    let chars = to_chars(path);
    let end = trimmed_len(&chars, chars.len());
    assert(chars@.take(chars.len() as int) == chars@);
    if end == 0 {
        None
    } else {
        let start = last_segment_start(&chars, end);
        let up_end = trimmed_len(&chars, start);
        assert(chars@.take(end as int).take(start as int) == chars@.take(start as int));
        if start > 0 && up_end == 0 {
            Some(from_range(&chars, 0, 1))
        } else {
            Some(from_range(&chars, 0, up_end))
        }
    }
}

/// `name` placed in the directory `dir`.
pub fn join(dir: &str, name: &str) -> (path: String)
    ensures
        path@ == joined(dir@, name@),
{
    let mut out = to_chars(dir);
    let tail = to_chars(name);
    if out.len() > 0 && !is_sep(out[out.len() - 1]) {
        out.push('/');
    }
    extend_range(&mut out, &tail, 0, tail.len());
    from_chars(&out)
}

/// `path` and all its ancestors, nearest first.
pub fn ancestors(path: &str) -> (chain: Vec<String>)
    ensures
        texts(chain@) == ancestor_chain(path@),
{
    let mut chain: Vec<String> = Vec::new();
    let mut current: String = path.to_owned();
    let ghost mut done: Seq<Seq<char>> = Seq::empty();
    loop
        invariant
            texts(chain@) == done,
            done + ancestor_chain(current@) == ancestor_chain(path@),
        decreases current@.len(),
    {
        let up = parent(current.as_str());
        proof {
            lemma_ancestors(current@);
            lemma_parent_shorter(current@);
            done = done.push(current@);
        }
        chain.push(current);
        match up {
            Some(p) => {
                current = p;
            },
            None => {
                return chain;
            },
        }
    }
}

} // verus!
