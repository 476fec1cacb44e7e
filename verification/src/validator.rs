//! Whether a destination can be reached at all.
//!
//! Before anything is written the destination is looked at from the outside:
//! does the path itself exist, or its parent, or the parent of that? A path
//! none of whose ancestors exists hangs in the air (a drive that is not
//! there, a name that begins with a stray space) and no directory is made
//! for it.

use crate::path::{ancestor_chain, lemma_ancestors, lemma_parent_shorter, parent_of};
use vstd::prelude::*;

verus! {

/// Whether `path` is among the paths listed.
pub open spec fn listed(existing: Seq<String>, path: Seq<char>) -> bool {
    exists|i: int| 0 <= i < existing.len() && (#[trigger] existing[i])@ == path
}

/// Whether `dst` or one of its ancestors is among the paths that exist.
pub open spec fn is_reachable(dst: Seq<char>, existing: Seq<String>) -> bool {
    exists|k: int|
        0 <= k < ancestor_chain(dst).len() && listed(existing, #[trigger] ancestor_chain(dst)[k])
}

/// A path is reachable if it exists itself or its parent is reachable, and not
/// otherwise.
pub proof fn lemma_reachable_step(path: Seq<char>, existing: Seq<String>)
    ensures
        is_reachable(path, existing) <==> listed(existing, path) || (parent_of(path) matches Some(
            up,
        ) && is_reachable(up, existing)),
{
    lemma_ancestors(path);
    let chain = ancestor_chain(path);
    if is_reachable(path, existing) {
        let k = choose|k: int| 0 <= k < chain.len() && listed(existing, #[trigger] chain[k]);
    }
    if let Some(up) = parent_of(path) {
        if is_reachable(up, existing) {
            let k = choose|k: int|
                0 <= k < ancestor_chain(up).len() && listed(
                    existing,
                    #[trigger] ancestor_chain(up)[k],
                );
            assert(chain[k + 1] == ancestor_chain(up)[k]);
        }
    }
}

/// Whether `path` is among the paths listed.
pub fn is_listed(existing: &Vec<String>, path: &String) -> (found: bool)
    ensures
        found == listed(existing@, path@),
{
    let mut i: usize = 0;
    while i < existing.len()
        invariant
            i <= existing.len(),
            forall|k: int| 0 <= k < i ==> (#[trigger] existing@[k])@ != path@,
        decreases existing.len() - i,
    {
        if existing[i] == *path {
            return true;
        }
        i += 1;
    }
    false
}

/// Whether the destination is rooted somewhere that exists: whether `dst`
/// itself or one of its ancestors is among `existing`, the paths that were
/// found to exist. This promises nothing about the write that follows; it
/// tells a destination that can be made from one that cannot.
pub fn is_dst_valid(dst: &str, existing: &Vec<String>) -> (reachable: bool)
    ensures
        reachable == is_reachable(dst@, existing@),
{
    let mut current: String = dst.to_owned();
    loop
        invariant
            is_reachable(current@, existing@) == is_reachable(dst@, existing@),
        decreases current@.len(),
    {
        proof {
            lemma_reachable_step(current@, existing@);
            lemma_parent_shorter(current@);
        }
        if is_listed(existing, &current) {
            return true;
        }
        match crate::path::parent(current.as_str()) {
            Some(up) => {
                current = up;
            },
            None => {
                return false;
            },
        }
    }
}

/// A destination none of whose ancestors exists, itself included, is not
/// reachable.
pub proof fn law_unrooted_is_unreachable(dst: Seq<char>, existing: Seq<String>)
    requires
        forall|k: int|
            0 <= k < ancestor_chain(dst).len() ==> !listed(existing, #[trigger] ancestor_chain(dst)[k]),
    ensures
        !is_reachable(dst, existing),
{
}

/// A destination whose parent exists is reachable.
pub proof fn law_existing_parent_is_reachable(dst: Seq<char>, existing: Seq<String>)
    requires
        parent_of(dst) matches Some(up) && listed(existing, up),
    ensures
        is_reachable(dst, existing),
{
    lemma_reachable_step(dst, existing);
    lemma_reachable_step(parent_of(dst).unwrap(), existing);
}

} // verus!
