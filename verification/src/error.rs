//! Why a job stops.

use vstd::prelude::*;

verus! {

/// The ways in which a job can fail. None of them is recovered from: the job
/// ends at the first one.
#[derive(Clone, Copy, Debug, PartialEq, Eq, Structural)]
pub enum ErrorKind {
    /// The source has no final segment to classify.
    InvalidSource,
    /// The walk below the enumeration root could not be read.
    TraversalError,
    /// A matched file does not lie below the enumeration root in a way that
    /// gives it a place below the destination.
    InvalidPath,
    /// No ancestor of the destination exists.
    UnreachableDestination,
    /// The copy, rename or link cannot be carried out: the source is not
    /// there when its turn comes, or the call itself fails.
    OperationFailure,
}

/// A failure together with the path that it is about.
#[derive(Clone, Debug, PartialEq, Eq)]
pub struct JobError {
    pub kind: ErrorKind,
    pub path: String,
}

impl JobError {
    /// Whether this is the failure `kind` about the path `path`.
    pub open spec fn reports(&self, kind: ErrorKind, path: Seq<char>) -> bool {
        self.kind == kind && self.path@ == path
    }

    /// The failure `kind` about `path`.
    pub fn new(kind: ErrorKind, path: &str) -> (error: JobError)
        ensures
            error.reports(kind, path@),
    {
        JobError { kind, path: path.to_owned() }
    }

    /// What the failure is called.
    pub open spec fn label(kind: ErrorKind) -> Seq<char> {
        match kind {
            ErrorKind::InvalidSource => "invalid source: "@,
            ErrorKind::TraversalError => "cannot walk: "@,
            ErrorKind::InvalidPath => "invalid path: "@,
            ErrorKind::UnreachableDestination => "unreachable destination: "@,
            ErrorKind::OperationFailure => "operation failed: "@,
        }
    }

    /// One line for a person to read: the failure's label, then the path.
    pub fn message(&self) -> (line: String)
        ensures
            line@ == Self::label(self.kind) + self.path@,
    {
        let label = match self.kind {
            ErrorKind::InvalidSource => "invalid source: ",
            ErrorKind::TraversalError => "cannot walk: ",
            ErrorKind::InvalidPath => "invalid path: ",
            ErrorKind::UnreachableDestination => "unreachable destination: ",
            ErrorKind::OperationFailure => "operation failed: ",
        };
        let mut line = label.to_owned();
        line.append(self.path.as_str());
        line
    }
}

} // verus!
