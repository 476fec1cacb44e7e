//! What is done to the file system for one pair of paths.
//!
//! Nothing here touches a disk. The caller looks at the destination, hands
//! over what it saw, and gets back the calls to make, in order. It makes
//! them one after the other and stops at the first that fails.

use crate::args::Operation;
use crate::error::{ErrorKind, JobError};
use crate::operations::Paths;
use crate::path::parent_of;
use crate::validator::{is_listed, is_reachable, listed};
use vstd::prelude::*;

verus! {

/// One call on the file system.
#[derive(Clone, Debug, PartialEq, Eq)]
pub enum FsAction {
    /// Make the directory and every ancestor of it that is missing.
    CreateDirAll(String),
    /// Take the read-only mark off the file.
    ClearReadOnly(String),
    /// Remove the file.
    RemoveFile(String),
    /// Copy the bytes of `from` into the new file `to`.
    Copy { from: String, to: String },
    /// Make `to` a second name of the file `from`.
    HardLink { from: String, to: String },
    /// Give the file `from` the name `to`.
    Rename { from: String, to: String },
}

/// A call on the file system over plain text.
pub enum Step {
    CreateDirAll(Seq<char>),
    ClearReadOnly(Seq<char>),
    RemoveFile(Seq<char>),
    Copy { from: Seq<char>, to: Seq<char> },
    HardLink { from: Seq<char>, to: Seq<char> },
    Rename { from: Seq<char>, to: Seq<char> },
}

impl View for FsAction {
    type V = Step;

    open spec fn view(&self) -> Step {
        match self {
            FsAction::CreateDirAll(path) => Step::CreateDirAll(path@),
            FsAction::ClearReadOnly(path) => Step::ClearReadOnly(path@),
            FsAction::RemoveFile(path) => Step::RemoveFile(path@),
            FsAction::Copy { from, to } => Step::Copy { from: from@, to: to@ },
            FsAction::HardLink { from, to } => Step::HardLink { from: from@, to: to@ },
            FsAction::Rename { from, to } => Step::Rename { from: from@, to: to@ },
        }
    }
}

/// What the caller saw when it looked at one pair just before acting on it.
#[derive(Clone, Debug, PartialEq, Eq)]
pub struct DestinationProbe {
    /// Whether the source exists.
    pub source_exists: bool,
    /// The paths that exist among the destination and its ancestors.
    pub existing: Vec<String>,
    /// Whether the destination exists as a regular file.
    pub is_file: bool,
    /// Whether that file is marked read-only.
    pub read_only: bool,
}

/// The steps of a list of actions.
pub open spec fn steps(actions: Seq<FsAction>) -> Seq<Step> {
    actions.map_values(|action: FsAction| action@)
}

/// The step that makes room for the destination's parent: none where `to` has
/// no parent or the parent exists.
pub open spec fn parent_steps(to: Seq<char>, existing: Seq<String>) -> Seq<Step> {
    match parent_of(to) {
        Some(up) if !listed(existing, up) => seq![Step::CreateDirAll(up)],
        _ => Seq::empty(),
    }
}

/// The steps that clear a file out of the destination's way: none where it is
/// no file.
pub open spec fn clearing_steps(to: Seq<char>, is_file: bool, read_only: bool) -> Seq<Step> {
    if !is_file {
        Seq::empty()
    } else if read_only {
        seq![Step::ClearReadOnly(to), Step::RemoveFile(to)]
    } else {
        seq![Step::RemoveFile(to)]
    }
}

/// The step that carries the operation out.
pub open spec fn operation_step(op: Operation, from: Seq<char>, to: Seq<char>) -> Step {
    match op {
        Operation::Copy_ => Step::Copy { from, to },
        Operation::Hardlink => Step::HardLink { from, to },
        Operation::Move => Step::Rename { from, to },
    }
}

/// All the steps for one pair, in order: the parent directory is made, a file
/// in the way is removed, and the operation is carried out.
pub open spec fn plan(op: Operation, from: Seq<char>, to: Seq<char>, probe: DestinationProbe) -> Seq<
    Step,
> {
    (parent_steps(to, probe.existing@) + clearing_steps(to, probe.is_file, probe.read_only)).push(
        operation_step(op, from, to),
    )
}

/// The calls that carry `op` out on one pair, given what `probe` saw. A
/// missing source and an unreachable destination end the job before any call
/// is made.
pub fn file_op(op: Operation, pair: &Paths, probe: &DestinationProbe) -> (result: Result<
    Vec<FsAction>,
    JobError,
>)
    ensures
        match result {
            Ok(actions) => probe.source_exists && is_reachable(pair.to@, probe.existing@) && steps(
                actions@,
            ) == plan(op, pair.from@, pair.to@, *probe),
            Err(error) => if !probe.source_exists {
                error.reports(ErrorKind::OperationFailure, pair.from@)
            } else {
                !is_reachable(pair.to@, probe.existing@) && error.reports(
                    ErrorKind::UnreachableDestination,
                    pair.to@,
                )
            },
        },
{
    let from = pair.from.as_str();
    let to = pair.to.as_str();
    if !probe.source_exists {
        return Err(JobError::new(ErrorKind::OperationFailure, from));
    }
    if !crate::validator::is_dst_valid(to, &probe.existing) {
        return Err(JobError::new(ErrorKind::UnreachableDestination, to));
    }
    let mut actions: Vec<FsAction> = Vec::new();
    match crate::path::parent(to) {
        Some(up) => {
            if !is_listed(&probe.existing, &up) {
                actions.push(FsAction::CreateDirAll(up));
            }
        },
        None => {},
    }
    if probe.is_file {
        if probe.read_only {
            actions.push(FsAction::ClearReadOnly(to.to_owned()));
        }
        actions.push(FsAction::RemoveFile(to.to_owned()));
    }
    let last = match op {
        Operation::Copy_ => FsAction::Copy { from: from.to_owned(), to: to.to_owned() },
        Operation::Hardlink => FsAction::HardLink { from: from.to_owned(), to: to.to_owned() },
        Operation::Move => FsAction::Rename { from: from.to_owned(), to: to.to_owned() },
    };
    actions.push(last);
    Ok(actions)
}

} // verus!
