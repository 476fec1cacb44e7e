//! A file system on paper.
//!
//! The calls that a job makes are carried out by the caller, on a real disk.
//! To say what they are for, this module holds a small model of a disk and of
//! what each call does to it, and proves that the calls planned for one pair
//! leave the model as the operation promises. The model is strict where real
//! systems differ: a call that it lets through goes through on any of them.
//!
//! A file that is renamed takes its bytes along; a directory that is renamed
//! takes along all that stands below it, each thing to the same place below
//! the new name.

use crate::args::Operation;
use crate::executor::{clearing_steps, operation_step, parent_steps, plan, DestinationProbe, Step};
use crate::path::{
    ancestor_chain, is_separator, lemma_ancestors, lemma_parent_shorter, parent_of,
};
use crate::validator::listed;
use vstd::prelude::*;

verus! {

/// What stands at a path.
pub enum Node {
    File { data: Seq<u8>, read_only: bool },
    Directory,
}

/// A disk: what stands at each path that exists.
pub type Disk = Map<Seq<char>, Node>;

/// Whether a regular file stands at `path`.
pub open spec fn holds_file(disk: Disk, path: Seq<char>) -> bool {
    disk.dom().contains(path) && disk[path] is File
}

/// Whether a directory stands at `path`.
pub open spec fn holds_directory(disk: Disk, path: Seq<char>) -> bool {
    disk.dom().contains(path) && disk[path] is Directory
}

/// Whether `to` can take a new file: its parent is a directory and nothing
/// stands at `to` itself.
pub open spec fn is_free(disk: Disk, to: Seq<char>) -> bool {
    &&& !disk.dom().contains(to)
    &&& parent_of(to) matches Some(up)
    &&& holds_directory(disk, up)
}

/// Whether `path` is one of the paths in `chain`.
pub open spec fn on_chain(chain: Seq<Seq<char>>, path: Seq<char>) -> bool {
    exists|k: int| 0 <= k < chain.len() && #[trigger] chain[k] == path
}

/// Whether `path` is `dir` or stands below it.
pub open spec fn is_within(dir: Seq<char>, path: Seq<char>) -> bool {
    dir.is_prefix_of(path) && (path.len() == dir.len() || is_separator(path[dir.len() as int]))
}

/// Whether nothing stands at `dir` or below it.
pub open spec fn is_vacant(disk: Disk, dir: Seq<char>) -> bool {
    forall|p: Seq<char>| is_within(dir, p) ==> !#[trigger] disk.dom().contains(p)
}

/// `path`, which stands within `from`, carried to the same place within `to`.
pub open spec fn carried(from: Seq<char>, to: Seq<char>, path: Seq<char>) -> Seq<char> {
    to + path.skip(from.len() as int)
}

/// The disk after the directory `from` has taken the name `to` and all that
/// stood within it has gone with it.
pub open spec fn with_directory_moved(disk: Disk, from: Seq<char>, to: Seq<char>) -> Disk {
    Map::new(
        |p: Seq<char>|
            if is_within(to, p) {
                disk.dom().contains(carried(to, from, p))
            } else {
                disk.dom().contains(p) && !is_within(from, p)
            },
        |p: Seq<char>|
            if is_within(to, p) {
                disk[carried(to, from, p)]
            } else {
                disk[p]
            },
    )
}

/// The disk after one call, or `None` where the call fails.
pub open spec fn perform(disk: Disk, step: Step) -> Option<Disk> {
    match step {
        Step::CreateDirAll(path) => {
            let chain = ancestor_chain(path);
            if forall|k: int|
                0 <= k < chain.len() && disk.dom().contains(#[trigger] chain[k]) ==> disk[chain[k]]
                    is Directory {
                Some(
                    Map::new(
                        |p: Seq<char>| disk.dom().contains(p) || on_chain(chain, p),
                        |p: Seq<char>|
                            if disk.dom().contains(p) {
                                disk[p]
                            } else {
                                Node::Directory
                            },
                    ),
                )
            } else {
                None
            }
        },
        Step::ClearReadOnly(path) => if holds_file(disk, path) {
            Some(disk.insert(path, Node::File { data: disk[path]->data, read_only: false }))
        } else {
            None
        },
        Step::RemoveFile(path) => if holds_file(disk, path) && !disk[path]->read_only {
            Some(disk.remove(path))
        } else {
            None
        },
        Step::Copy { from, to } => if holds_file(disk, from) && is_free(disk, to) {
            Some(disk.insert(to, disk[from]))
        } else {
            None
        },
        Step::HardLink { from, to } => if holds_file(disk, from) && is_free(disk, to) {
            Some(disk.insert(to, disk[from]))
        } else {
            None
        },
        Step::Rename { from, to } => if holds_file(disk, from) && is_free(disk, to) {
            Some(disk.remove(from).insert(to, disk[from]))
        } else if holds_directory(disk, from) && is_free(disk, to) && is_vacant(disk, to)
            && !is_within(from, to) {
            Some(with_directory_moved(disk, from, to))
        } else {
            None
        },
    }
}

/// The disk after the calls of `steps`, made in order; `None` where one of
/// them fails.
pub open spec fn run(disk: Disk, steps: Seq<Step>) -> Option<Disk>
    decreases steps.len(),
{
    if steps.len() == 0 {
        Some(disk)
    } else {
        match perform(disk, steps[0]) {
            Some(next) => run(next, steps.skip(1)),
            None => None,
        }
    }
}

/// Whether `probe` tells the truth about `disk` where the pair `from`, `to` is
/// concerned.
pub open spec fn agrees(probe: DestinationProbe, disk: Disk, from: Seq<char>, to: Seq<char>) -> bool {
    &&& probe.source_exists == disk.dom().contains(from)
    &&& forall|k: int|
        0 <= k < ancestor_chain(to).len() ==> listed(
            probe.existing@,
            #[trigger] ancestor_chain(to)[k],
        ) == disk.dom().contains(ancestor_chain(to)[k])
    &&& probe.is_file == holds_file(disk, to)
    &&& probe.read_only == (holds_file(disk, to) && disk[to]->read_only)
}

/// No ancestor is longer than the path it is an ancestor of.
pub proof fn lemma_chain_lengths(path: Seq<char>, k: int)
    requires
        0 <= k < ancestor_chain(path).len(),
    ensures
        ancestor_chain(path)[k].len() <= path.len(),
    decreases path.len(),
{
    lemma_ancestors(path);
    lemma_parent_shorter(path);
    if k > 0 {
        lemma_chain_lengths(parent_of(path).unwrap(), k - 1);
    }
}

/// Running a list of calls is running its first part and then its last call.
pub proof fn lemma_run_push(disk: Disk, steps: Seq<Step>, last: Step)
    ensures
        run(disk, steps.push(last)) == match run(disk, steps) {
            Some(mid) => perform(mid, last),
            None => None,
        },
    decreases steps.len(),
{
    if steps.len() == 0 {
        assert(steps.push(last).skip(1) == Seq::<Step>::empty());
        match perform(disk, last) {
            Some(next) => {
                assert(run(next, Seq::<Step>::empty()) == Some(next));
            },
            None => {},
        }
    } else {
        assert(steps.push(last).skip(1) == steps.skip(1).push(last));
        match perform(disk, steps[0]) {
            Some(next) => {
                lemma_run_push(next, steps.skip(1), last);
            },
            None => {},
        }
    }
}

/// Running two lists of calls one after the other is running them as one.
pub proof fn lemma_run_add(disk: Disk, first: Seq<Step>, second: Seq<Step>)
    ensures
        run(disk, first + second) == match run(disk, first) {
            Some(mid) => run(mid, second),
            None => None,
        },
    decreases second.len(),
{
    if second.len() > 0 {
        let front = second.drop_last();
        assert(second == front.push(second.last()));
        lemma_run_add(disk, first, front);
        lemma_run_push(disk, first + front, second.last());
        match run(disk, first) {
            Some(mid) => {
                lemma_run_push(mid, front, second.last());
            },
            None => {},
        }
    }
}

/// After the parent's step the parent is a directory. All that stood on the
/// disk stands as it stood, and what is new is shorter than `to`.
pub proof fn lemma_parent_made(disk: Disk, to: Seq<char>, existing: Seq<String>)
    requires
        parent_of(to) is Some,
        forall|k: int|
            0 <= k < ancestor_chain(to).len() ==> listed(existing, #[trigger] ancestor_chain(to)[k])
                == disk.dom().contains(ancestor_chain(to)[k]),
        forall|k: int|
            1 <= k < ancestor_chain(to).len() && disk.dom().contains(#[trigger] ancestor_chain(to)[k])
                ==> disk[ancestor_chain(to)[k]] is Directory,
    ensures
        run(disk, parent_steps(to, existing)) matches Some(made) && holds_directory(
            made,
            parent_of(to).unwrap(),
        ) && (forall|p: Seq<char>| #[trigger]
            disk.dom().contains(p) ==> made.dom().contains(p) && made[p] == disk[p]) && (forall|
            p: Seq<char>,
        | #[trigger]
            made.dom().contains(p) && !disk.dom().contains(p) ==> p.len() < to.len()),
{
    let up = parent_of(to).unwrap();
    let chain = ancestor_chain(to);
    let above = ancestor_chain(up);
    lemma_ancestors(to);
    lemma_ancestors(up);
    lemma_parent_shorter(to);
    assert forall|k: int| 0 <= k < above.len() implies above[k] == chain[k + 1] && above[k].len()
        < to.len() by {
        lemma_chain_lengths(up, k);
    }
    if !listed(existing, up) {
        let steps = seq![Step::CreateDirAll(up)];
        let made = perform(disk, steps[0]).unwrap();
        assert(run(made, steps.skip(1)) == Some(made));
        assert forall|p: Seq<char>| #[trigger]
            made.dom().contains(p) && !disk.dom().contains(p) implies p.len() < to.len() by {
            let k = choose|k: int| 0 <= k < above.len() && #[trigger] above[k] == p;
        }
    }
}

/// After the clearing steps nothing stands at `to`, and nothing else has
/// changed.
pub proof fn lemma_cleared(disk: Disk, to: Seq<char>, is_file: bool, read_only: bool)
    requires
        is_file == holds_file(disk, to),
        read_only == (holds_file(disk, to) && disk[to]->read_only),
        disk.dom().contains(to) ==> disk[to] is File,
    ensures
        run(disk, clearing_steps(to, is_file, read_only)) == Some(disk.remove(to)),
{
    reveal_with_fuel(run, 3);
}

/// What the planned calls achieve. Take a disk on which `from` is a regular
/// file, `to` another path with a parent, that is free or held by a file,
/// below ancestors that are directories as far as they exist; take a probe
/// that tells the truth about that disk. Then every call of the plan goes
/// through, and afterwards `to` holds a file with the bytes that `from` held.
/// After a copy and after a link `from` still stands as it stood; after a move
/// it is gone.
pub proof fn law_plan_carries_the_bytes_over(
    op: Operation,
    from: Seq<char>,
    to: Seq<char>,
    probe: DestinationProbe,
    disk: Disk,
)
    requires
        agrees(probe, disk, from, to),
        holds_file(disk, from),
        from != to,
        parent_of(to) is Some,
        disk.dom().contains(to) ==> disk[to] is File,
        forall|k: int|
            1 <= k < ancestor_chain(to).len() && disk.dom().contains(#[trigger] ancestor_chain(to)[k])
                ==> disk[ancestor_chain(to)[k]] is Directory,
    ensures
        run(disk, plan(op, from, to, probe)) matches Some(after) && holds_file(after, to)
            && after[to]->data == disk[from]->data && if op == Operation::Move {
            !after.dom().contains(from)
        } else {
            after.dom().contains(from) && after[from] == disk[from]
        },
{
    let first = parent_steps(to, probe.existing@);
    let second = clearing_steps(to, probe.is_file, probe.read_only);
    let last = operation_step(op, from, to);
    lemma_parent_made(disk, to, probe.existing@);
    let made = run(disk, first).unwrap();
    lemma_cleared(made, to, probe.is_file, probe.read_only);
    let cleared = made.remove(to);
    lemma_run_add(disk, first, second);
    lemma_run_push(disk, first + second, last);
    assert(is_free(cleared, to)) by {
        lemma_parent_shorter(to);
    }
}

/// What the planned calls achieve for a directory that is moved. Take a disk
/// on which `from` is a directory and nothing stands at `to` or below it, `to`
/// being a path with a parent, outside `from`, below ancestors that are
/// directories as far as they exist; take a probe that tells the truth about
/// that disk. Then every call of the plan goes through, and afterwards all
/// that stood within `from` stands at the same place within `to`, and nothing
/// of it where it stood.
pub proof fn law_moved_directory_takes_all_along(
    from: Seq<char>,
    to: Seq<char>,
    probe: DestinationProbe,
    disk: Disk,
    path: Seq<char>,
)
    requires
        agrees(probe, disk, from, to),
        holds_directory(disk, from),
        !is_within(from, to),
        parent_of(to) is Some,
        is_vacant(disk, to),
        forall|k: int|
            1 <= k < ancestor_chain(to).len() && disk.dom().contains(#[trigger] ancestor_chain(to)[k])
                ==> disk[ancestor_chain(to)[k]] is Directory,
        is_within(from, path),
        disk.dom().contains(path),
    ensures
        run(disk, plan(Operation::Move, from, to, probe)) matches Some(after) && after.dom().contains(
            carried(from, to, path),
        ) && after[carried(from, to, path)] == disk[path] && !after.dom().contains(path),
{
    let first = parent_steps(to, probe.existing@);
    let last = operation_step(Operation::Move, from, to);
    lemma_parent_made(disk, to, probe.existing@);
    let made = run(disk, first).unwrap();
    lemma_run_push(disk, first, last);
    assert(is_vacant(made, to));
    let there = carried(from, to, path);
    assert(is_within(to, there));
    assert(carried(to, from, there) == path);
}

} // verus!
