//! Where a matched file goes.
//!
//! Two rules give a matched source its destination. Flattening drops the
//! directories between the enumeration root and the file: the file lands
//! directly in the destination directory. Preserving the offset keeps them:
//! the text of the source below the root is carried over as it stands.

use crate::error::{ErrorKind, JobError};
use crate::operations::Paths;
use crate::path::{
    final_segment, is_sep, is_separator, joined, lemma_final_segment, lemma_final_segment_of_tail,
    lemma_segment_start, trim_end,
};
use crate::text::{extend_range, from_chars, matches_at, to_chars};
use vstd::prelude::*;

verus! {

/// Whether nothing need stand between `root` and what lies below it: whether
/// `root` is empty or ends with a separator.
pub open spec fn is_open(root: Seq<char>) -> bool {
    root.len() == 0 || is_separator(root.last())
}

/// The index in a source below `root` at which its offset begins: behind
/// `root`, and behind the separator that follows `root` where `root` brings
/// none.
pub open spec fn offset_index(root: Seq<char>) -> int {
    if is_open(root) {
        root.len() as int
    } else {
        root.len() as int + 1
    }
}

/// The offset of `source` below `root`: the text of `source` behind `root` and
/// the separator between them, beginning with a character that is no
/// separator. There is no offset where `root` does not begin `source` letter
/// for letter, where it ends inside a segment of `source`, and where nothing
/// of `source` is left below it.
pub open spec fn offset_of(root: Seq<char>, source: Seq<char>) -> Option<Seq<char>> {
    let at = offset_index(root);
    if root.is_prefix_of(source) && at < source.len() && (is_open(root) || is_separator(
        source[root.len() as int],
    )) && !is_separator(source[at]) {
        Some(source.skip(at))
    } else {
        None
    }
}

/// The separator that is put between a destination directory and an offset:
/// the one that `source` has behind `root`, or `/` where `root` brings its
/// own.
pub open spec fn offset_separator(root: Seq<char>, source: Seq<char>) -> char {
    if is_open(root) {
        '/'
    } else {
        source[root.len() as int]
    }
}

/// The destination that mirrors below `dest_dir` the place of `source` below
/// `root`: `dest_dir`, a separator unless `dest_dir` is empty or ends with
/// one, and the offset.
pub open spec fn offset_destination(
    dest_dir: Seq<char>,
    root: Seq<char>,
    source: Seq<char>,
) -> Option<Seq<char>> {
    match offset_of(root, source) {
        Some(offset) => Some(
            if is_open(dest_dir) {
                dest_dir + offset
            } else {
                dest_dir.push(offset_separator(root, source)) + offset
            },
        ),
        None => None,
    }
}

/// The destination of `source` directly in `dest_dir`, under its own name.
pub open spec fn flat_destination(dest_dir: Seq<char>, source: Seq<char>) -> Option<Seq<char>> {
    match final_segment(source) {
        Some(name) => Some(joined(dest_dir, name)),
        None => None,
    }
}

/// Maps `source` into `dest_dir` under its own name.
pub fn flatten(dest_dir: &str, source: &str) -> (result: Result<String, JobError>)
    ensures
        match flat_destination(dest_dir@, source@) {
            Some(to) => result matches Ok(path) && path@ == to,
            None => result matches Err(error) && error.reports(ErrorKind::InvalidPath, source@),
        },
{
    match crate::path::file_name(source) {
        Some(name) => Ok(crate::path::join(dest_dir, name.as_str())),
        None => Err(JobError::new(ErrorKind::InvalidPath, source)),
    }
}

/// Maps `new_src`, found below the root `p.from`, to the same place below the
/// destination directory `p.to`.
pub fn fix_offset(p: &Paths, new_src: &str) -> (result: Result<String, JobError>)
    ensures
        match offset_destination(p.to@, p.from@, new_src@) {
            Some(to) => result matches Ok(path) && path@ == to,
            None => result matches Err(error) && error.reports(ErrorKind::InvalidPath, new_src@),
        },
{
    let base = to_chars(p.from.as_str());
    let full = to_chars(new_src);
    let open = base.len() == 0 || is_sep(base[base.len() - 1]);
    if !matches_at(&full, &base, 0) || (!open && full.len() == base.len()) {
        return Err(JobError::new(ErrorKind::InvalidPath, new_src));
    }
    let at = if open {
        base.len()
    } else {
        base.len() + 1
    };
    if at >= full.len() || (!open && !is_sep(full[base.len()])) || is_sep(full[at]) {
        return Err(JobError::new(ErrorKind::InvalidPath, new_src));
    }
    let mut out = to_chars(p.to.as_str());
    if out.len() > 0 && !is_sep(out[out.len() - 1]) {
        out.push(
            if open {
                '/'
            } else {
                full[base.len()]
            },
        );
    }
    extend_range(&mut out, &full, at, full.len());
    Ok(from_chars(&out))
}

/// Preserving the offset is literal: where neither `root` nor `dest_dir` is
/// empty or ends with a separator, the destination is `dest_dir` followed by
/// `source` with `root` struck from its front, and `source` is `root`
/// followed by that same text.
pub proof fn law_offset_is_prefix_exchange(dest_dir: Seq<char>, root: Seq<char>, source: Seq<char>)
    requires
        offset_destination(dest_dir, root, source) is Some,
        !is_open(root),
        !is_open(dest_dir),
    ensures
        offset_destination(dest_dir, root, source) == Some(dest_dir + source.skip(root.len() as int)),
        source == root + source.skip(root.len() as int),
{
}

/// A file found at a relative path in the root goes to the same relative path
/// in the destination: whatever `root` and `dest_dir` are, the source that is
/// `rel` placed in `root` is mapped to `rel` placed in `dest_dir`.
pub proof fn law_offset_exchanges_the_directory(
    dest_dir: Seq<char>,
    root: Seq<char>,
    rel: Seq<char>,
)
    requires
        rel.len() > 0,
        !is_separator(rel[0]),
    ensures
        offset_destination(dest_dir, root, joined(root, rel)) == Some(joined(dest_dir, rel)),
{
}

/// Mapping again changes nothing: a destination found below `dest_dir`, taken
/// as a source below `dest_dir` and mapped into `dest_dir`, is itself.
pub proof fn law_offset_mapping_idempotent(dest_dir: Seq<char>, root: Seq<char>, source: Seq<char>)
    requires
        offset_destination(dest_dir, root, source) is Some,
        !is_open(dest_dir),
    ensures
        offset_destination(dest_dir, dest_dir, offset_destination(dest_dir, root, source).unwrap())
            == offset_destination(dest_dir, root, source),
{
}

/// A file that is flattened keeps its name: the final segment of its
/// destination is its own.
pub proof fn law_flattening_keeps_the_name(dest_dir: Seq<char>, source: Seq<char>)
    requires
        flat_destination(dest_dir, source) is Some,
    ensures
        final_segment(flat_destination(dest_dir, source).unwrap()) == final_segment(source),
{
    let name = final_segment(source).unwrap();
    lemma_final_segment(source);
    let front = if dest_dir.len() == 0 || is_separator(dest_dir.last()) {
        dest_dir
    } else {
        dest_dir.push('/')
    };
    lemma_segment_start(name);
    assert(name.skip(0) == name);
    lemma_final_segment_of_tail(front, name);
}

/// A file that keeps its offset keeps its name: the final segment of its
/// destination is its own, where the offset ends with a name.
pub proof fn law_offset_keeps_the_name(dest_dir: Seq<char>, root: Seq<char>, source: Seq<char>)
    requires
        offset_destination(dest_dir, root, source) is Some,
        final_segment(offset_of(root, source).unwrap()) is Some,
    ensures
        final_segment(offset_destination(dest_dir, root, source).unwrap()) == final_segment(source),
{
    let offset = offset_of(root, source).unwrap();
    let at = offset_index(root);
    assert(source == source.take(at) + offset);
    lemma_final_segment_of_tail(source.take(at), offset);
    if is_open(dest_dir) {
        lemma_final_segment_of_tail(dest_dir, offset);
    } else {
        lemma_final_segment_of_tail(dest_dir.push(offset_separator(root, source)), offset);
    }
}

} // verus!
