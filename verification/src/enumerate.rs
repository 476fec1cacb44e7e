//! Which files of a walk are taken.
//!
//! The directory tree is walked by the caller. What it found comes here as a
//! list, in the order of the walk, and the rules below pick from it.

use crate::error::{ErrorKind, JobError};
use crate::path::{final_segment, is_sep, is_separator};
use crate::text::{matches_at, occurs_at, texts, to_chars};
use vstd::prelude::*;

verus! {

/// One thing that a walk of a directory tree came upon.
#[derive(Clone, Debug, PartialEq, Eq)]
pub enum WalkItem {
    /// A regular file, by its path.
    File(String),
    /// A directory, or anything else that is no regular file, by its path.
    Other(String),
    /// A place that could not be read: the root itself where it is missing.
    Failed,
}

/// The number of segments in `path`: of places where a character that is no
/// separator starts the path or follows a separator.
pub open spec fn segment_count(path: Seq<char>) -> nat
    decreases path.len(),
{
    if path.len() == 0 {
        0
    } else {
        let starts_here = !is_separator(path.last()) && (path.len() == 1 || is_separator(
            path[path.len() - 2],
        ));
        segment_count(path.drop_last()) + if starts_here {
            1nat
        } else {
            0nat
        }
    }
}

/// The index in a path below `root` from which its segments below `root` are
/// counted: the length of `root`, or one less where `root` ends with a
/// separator, so that what is counted always begins with one.
pub open spec fn offset_start(root: Seq<char>) -> int {
    if root.len() > 0 && is_separator(root.last()) {
        root.len() - 1
    } else {
        root.len() as int
    }
}

/// Whether `path` is `root` or lies below it: `root` begins it letter for
/// letter and ends where a segment of `path` ends. Every path lies below the
/// empty root.
pub open spec fn lies_under(root: Seq<char>, path: Seq<char>) -> bool {
    root.is_prefix_of(path) && (path.len() == root.len() || root.len() == 0 || is_separator(
        path[offset_start(root)],
    ))
}

/// How many segments `path` has below `root`.
pub open spec fn depth_below(root: Seq<char>, path: Seq<char>) -> nat {
    segment_count(path.skip(offset_start(root)))
}

/// Whether `needle` stands somewhere in `hay`.
pub open spec fn contains_text(hay: Seq<char>, needle: Seq<char>) -> bool {
    exists|at: int| occurs_at(hay, needle, at)
}

/// Whether a name begins with a dot.
pub open spec fn is_hidden(name: Seq<char>) -> bool {
    name.len() > 0 && name[0] == '.'
}

/// Whether a file called `name` passes the filter. The empty filter lets every
/// name pass. Any other lets pass the names that hold it somewhere, hidden
/// names excepted.
pub open spec fn passes_filter(name: Seq<char>, filter: Seq<char>) -> bool {
    filter.len() == 0 || (contains_text(name, filter) && !is_hidden(name))
}

/// Whether the walk's item is taken: a regular file at or below `root`, no
/// deeper than one segment unless `recursive`, whose name passes the filter.
pub open spec fn is_yielded(
    root: Seq<char>,
    recursive: bool,
    filter: Seq<char>,
    item: WalkItem,
) -> bool {
    &&& item matches WalkItem::File(path)
    &&& lies_under(root, path@)
    &&& recursive || depth_below(root, path@) <= 1
    &&& final_segment(path@) matches Some(name)
    &&& passes_filter(name, filter)
}

/// The paths taken from a walk, in the order of the walk.
pub open spec fn yielded(
    root: Seq<char>,
    recursive: bool,
    filter: Seq<char>,
    walk: Seq<WalkItem>,
) -> Seq<Seq<char>>
    decreases walk.len(),
{
    if walk.len() == 0 {
        Seq::empty()
    } else {
        let before = yielded(root, recursive, filter, walk.drop_last());
        if is_yielded(root, recursive, filter, walk.last()) {
            before.push(walk.last()->File_0@)
        } else {
            before
        }
    }
}

/// Whether some place of the walk could not be read.
pub open spec fn walk_failed(walk: Seq<WalkItem>) -> bool {
    exists|i: int| 0 <= i < walk.len() && #[trigger] walk[i] is Failed
}

/// How many segments `chars[from..]` has.
fn count_segments(chars: &Vec<char>, from: usize) -> (count: usize)
    requires
        from <= chars.len(),
    ensures
        count == segment_count(chars@.skip(from as int)),
{
    let mut count: usize = 0;
    let mut i: usize = from;
    let ghost tail = chars@.skip(from as int);
    while i < chars.len()
        invariant
            from <= i <= chars.len(),
            tail == chars@.skip(from as int),
            count == segment_count(tail.take(i - from)),
            count <= i - from,
        decreases chars.len() - i,
    {
        let starts_here = !is_sep(chars[i]) && (i == from || is_sep(chars[i - 1]));
        assert(tail.take(i - from + 1).drop_last() == tail.take(i - from));
        if starts_here {
            count += 1;
        }
        i += 1;
    }
    assert(tail.take(chars.len() - from) == tail);
    count
}

/// Whether `needle` stands somewhere in `hay`.
pub fn contains(hay: &Vec<char>, needle: &Vec<char>) -> (found: bool)
    ensures
        found == contains_text(hay@, needle@),
{
    if needle.len() == 0 {
        assert(occurs_at(hay@, needle@, 0)) by {
            assert(hay@.subrange(0, 0) == needle@);
        }
        return true;
    }
    let mut at: usize = 0;
    while at < hay.len()
        invariant
            at <= hay.len(),
            forall|k: int| 0 <= k < at ==> !occurs_at(hay@, needle@, k),
        decreases hay.len() - at,
    {
        if matches_at(hay, needle, at) {
            return true;
        }
        at += 1;
    }
    false
}

/// Whether the file at `path` is taken.
fn takes(root: &Vec<char>, recursive: bool, filter: &Vec<char>, path: &String) -> (taken: bool)
    ensures
        taken == is_yielded(root@, recursive, filter@, WalkItem::File(*path)),
{
    let chars = to_chars(path.as_str());
    let begins = matches_at(&chars, root, 0);
    assert(begins == root@.is_prefix_of(chars@));
    if !begins {
        return false;
    }
    let start = if root.len() > 0 && is_sep(root[root.len() - 1]) {
        root.len() - 1
    } else {
        root.len()
    };
    if chars.len() != root.len() && root.len() != 0 && !is_sep(chars[start]) {
        return false;
    }
    if !recursive && count_segments(&chars, start) > 1 {
        return false;
    }
    match crate::path::file_name(path.as_str()) {
        None => false,
        Some(name) => {
            if filter.len() == 0 {
                true
            } else {
                let name_chars = to_chars(name.as_str());
                contains(&name_chars, filter) && !(name_chars.len() > 0 && name_chars[0] == '.')
            }
        },
    }
}

/// The files of `walk` that a search of `root` takes, in the order of the
/// walk: regular files only, directly in `root` unless `recursive`, with
/// `extension_filter` somewhere in their names unless it is empty. A walk
/// that holds a failure yields nothing: the job cannot go on.
pub fn enumerate(root: &str, recursive: bool, extension_filter: &str, walk: &Vec<WalkItem>) -> (result:
    Result<Vec<String>, JobError>)
    ensures
        match result {
            Ok(paths) => !walk_failed(walk@) && texts(paths@) == yielded(
                root@,
                recursive,
                extension_filter@,
                walk@,
            ) && (!recursive ==> forall|i: int|
                0 <= i < paths.len() ==> depth_below(root@, #[trigger] paths[i]@) <= 1),
            Err(error) => walk_failed(walk@) && error.reports(ErrorKind::TraversalError, root@),
        },
{
    let base = to_chars(root);
    let filter = to_chars(extension_filter);
    let mut paths: Vec<String> = Vec::new();
    let mut i: usize = 0;
    while i < walk.len()
        invariant
            i <= walk.len(),
            base@ == root@,
            filter@ == extension_filter@,
            forall|k: int| 0 <= k < i ==> !(#[trigger] walk@[k] is Failed),
            texts(paths@) == yielded(root@, recursive, extension_filter@, walk@.take(i as int)),
            !recursive ==> forall|k: int|
                0 <= k < paths.len() ==> depth_below(root@, #[trigger] paths[k]@) <= 1,
        decreases walk.len() - i,
    {
        assert(walk@.take(i + 1).drop_last() == walk@.take(i as int));
        match &walk[i] {
            WalkItem::Failed => {
                return Err(JobError::new(ErrorKind::TraversalError, root));
            },
            WalkItem::Other(_) => {},
            WalkItem::File(path) => {
                if takes(&base, recursive, &filter, path) {
                    paths.push(path.clone());
                }
            },
        }
        i += 1;
    }
    assert(walk@.take(walk.len() as int) == walk@);
    Ok(paths)
}

/// A search that is not recursive takes no file deeper than one segment below
/// its root.
pub proof fn law_flat_search_is_shallow(
    root: Seq<char>,
    filter: Seq<char>,
    walk: Seq<WalkItem>,
    i: int,
)
    requires
        0 <= i < yielded(root, false, filter, walk).len(),
    ensures
        depth_below(root, yielded(root, false, filter, walk)[i]) <= 1,
    decreases walk.len(),
{
    if walk.len() > 0 {
        let before = yielded(root, false, filter, walk.drop_last());
        if i < before.len() {
            law_flat_search_is_shallow(root, filter, walk.drop_last(), i);
        }
    }
}

/// Nothing is yielded that the walk did not find: each path taken is that of
/// a regular file of the walk that the rules take.
pub proof fn law_yielded_are_files_of_the_walk(
    root: Seq<char>,
    recursive: bool,
    filter: Seq<char>,
    walk: Seq<WalkItem>,
    i: int,
)
    requires
        0 <= i < yielded(root, recursive, filter, walk).len(),
    ensures
        exists|k: int|
            0 <= k < walk.len() && is_yielded(root, recursive, filter, #[trigger] walk[k])
                && walk[k]->File_0@ == yielded(root, recursive, filter, walk)[i],
    decreases walk.len(),
{
    let before = yielded(root, recursive, filter, walk.drop_last());
    if i < before.len() {
        law_yielded_are_files_of_the_walk(root, recursive, filter, walk.drop_last(), i);
        let k = choose|k: int|
            0 <= k < walk.len() - 1 && is_yielded(
                root,
                recursive,
                filter,
                #[trigger] walk.drop_last()[k],
            ) && walk.drop_last()[k]->File_0@ == before[i];
        assert(walk[k] == walk.drop_last()[k]);
    } else {
        assert(is_yielded(root, recursive, filter, walk[walk.len() - 1]));
    }
}

/// Nothing is left out that the rules take: each regular file of the walk
/// that they take is among the paths yielded.
pub proof fn law_taken_files_are_yielded(
    root: Seq<char>,
    recursive: bool,
    filter: Seq<char>,
    walk: Seq<WalkItem>,
    k: int,
)
    requires
        0 <= k < walk.len(),
        is_yielded(root, recursive, filter, walk[k]),
    ensures
        exists|i: int|
            0 <= i < yielded(root, recursive, filter, walk).len() && #[trigger] yielded(
                root,
                recursive,
                filter,
                walk,
            )[i] == walk[k]->File_0@,
    decreases walk.len(),
{
    let all = yielded(root, recursive, filter, walk);
    let before = yielded(root, recursive, filter, walk.drop_last());
    if k < walk.len() - 1 {
        assert(walk.drop_last()[k] == walk[k]);
        law_taken_files_are_yielded(root, recursive, filter, walk.drop_last(), k);
        let i = choose|i: int| 0 <= i < before.len() && #[trigger] before[i] == walk[k]->File_0@;
        assert(all[i] == before[i]);
    } else {
        assert(all[all.len() - 1] == walk[k]->File_0@);
    }
}

} // verus!
