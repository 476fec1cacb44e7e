//! One job from request to pairs.
//!
//! A job is classified once. Its pairs are then resolved against what a walk
//! of its root found: each file that is taken, with the place it goes to.

use crate::args::{ArgsType, Operation};
use crate::enumerate::{enumerate, walk_failed, yielded, WalkItem};
use crate::error::{ErrorKind, JobError};
use crate::mapper::{fix_offset, flat_destination, flatten, offset_destination};
use crate::pattern::{classification, classify, ClassifiedSource, SourceShape};
use crate::text::texts;
use vstd::prelude::*;

verus! {

/// One unit of work: a source and the place it goes to.
#[derive(Debug, Clone, Default, Eq, PartialEq, Ord, PartialOrd)]
pub struct Paths {
    pub from: String,
    pub to: String,
}

impl View for Paths {
    type V = (Seq<char>, Seq<char>);

    open spec fn view(&self) -> (Seq<char>, Seq<char>) {
        (self.from@, self.to@)
    }
}

/// A job after classification.
#[derive(Debug, Clone, PartialEq)]
pub struct FileOp {
    pub op: Operation,
    pub source: ClassifiedSource,
    pub to: String,
}

/// The pairs of a list, each as text.
pub open spec fn pairs(list: Seq<Paths>) -> Seq<(Seq<char>, Seq<char>)> {
    list.map_values(|p: Paths| p@)
}

/// The destination of one matched source: directly in `dest_dir` when the
/// match was narrowed by name, at its own offset otherwise.
pub open spec fn destination_of(
    flat: bool,
    dest_dir: Seq<char>,
    root: Seq<char>,
    source: Seq<char>,
) -> Option<Seq<char>> {
    if flat {
        flat_destination(dest_dir, source)
    } else {
        offset_destination(dest_dir, root, source)
    }
}

/// Each source with its destination, in order; or the first source that has
/// none.
pub open spec fn map_all(
    flat: bool,
    dest_dir: Seq<char>,
    root: Seq<char>,
    sources: Seq<Seq<char>>,
) -> Result<Seq<(Seq<char>, Seq<char>)>, Seq<char>>
    decreases sources.len(),
{
    if sources.len() == 0 {
        Ok(Seq::empty())
    } else {
        match map_all(flat, dest_dir, root, sources.drop_last()) {
            Err(source) => Err(source),
            Ok(front) => match destination_of(flat, dest_dir, root, sources.last()) {
                Some(to) => Ok(front.push((sources.last(), to))),
                None => Err(sources.last()),
            },
        }
    }
}

/// The pairs that a search of `root` yields from `walk`, or why there are
/// none: a walk that failed, or a file that has no destination.
pub open spec fn search(
    root: Seq<char>,
    dest_dir: Seq<char>,
    filter: Seq<char>,
    recursive: bool,
    flat: bool,
    walk: Seq<WalkItem>,
) -> Result<Seq<(Seq<char>, Seq<char>)>, (ErrorKind, Seq<char>)> {
    if walk_failed(walk) {
        Err((ErrorKind::TraversalError, root))
    } else {
        match map_all(flat, dest_dir, root, yielded(root, recursive, filter, walk)) {
            Ok(found) => Ok(found),
            Err(source) => Err((ErrorKind::InvalidPath, source)),
        }
    }
}

/// The pairs of a job. A single file is its own pair, and so is a directory
/// that is moved. A directory that is copied or linked gives one pair for
/// each file below it, at the same offset below the destination. A filtered
/// source gives one for each file taken: directly in the destination where
/// the names were narrowed, at its offset where they were not.
pub open spec fn resolution(
    op: Operation,
    source: SourceShape,
    to: Seq<char>,
    walk: Seq<WalkItem>,
) -> Result<Seq<(Seq<char>, Seq<char>)>, (ErrorKind, Seq<char>)> {
    match source {
        SourceShape::SingleFile(path) => Ok(seq![(path, to)]),
        SourceShape::SingleDirectory(path) => if op == Operation::Move {
            Ok(seq![(path, to)])
        } else {
            search(path, to, Seq::empty(), true, false, walk)
        },
        SourceShape::Filtered { root, extension, recursive } => search(
            root,
            to,
            extension,
            recursive,
            extension.len() > 0,
            walk,
        ),
    }
}

/// The directory that must be walked before the job's pairs can be resolved,
/// and whether the walk goes below its immediate children. A job that is its
/// own pair needs no walk.
pub open spec fn walk_of(op: Operation, source: SourceShape) -> Option<(Seq<char>, bool)> {
    match source {
        SourceShape::SingleFile(_) => None,
        SourceShape::SingleDirectory(path) => if op == Operation::Move {
            None
        } else {
            Some((path, true))
        },
        SourceShape::Filtered { root, extension, recursive } => Some((root, recursive)),
    }
}

/// What a successful mapping holds: one pair for each source, in order, the
/// source itself and its destination.
pub proof fn lemma_map_all(flat: bool, dest_dir: Seq<char>, root: Seq<char>, sources: Seq<Seq<char>>)
    ensures
        match map_all(flat, dest_dir, root, sources) {
            Ok(found) => found.len() == sources.len() && forall|i: int|
                0 <= i < sources.len() ==> (#[trigger] found[i]).0 == sources[i] && Some(found[i].1)
                    == destination_of(flat, dest_dir, root, sources[i]),
            Err(source) => exists|i: int|
                0 <= i < sources.len() && #[trigger] sources[i] == source && destination_of(
                    flat,
                    dest_dir,
                    root,
                    source,
                ) is None,
        },
    decreases sources.len(),
{
    if sources.len() > 0 {
        let front = sources.drop_last();
        lemma_map_all(flat, dest_dir, root, front);
        match map_all(flat, dest_dir, root, front) {
            Err(source) => {
                let i = choose|i: int|
                    0 <= i < front.len() && #[trigger] front[i] == source && destination_of(
                        flat,
                        dest_dir,
                        root,
                        source,
                    ) is None;
                assert(sources[i] == source);
            },
            Ok(found) => {
                assert(sources[sources.len() - 1] == sources.last());
            },
        }
    }
}

impl FileOp {
    /// Classifies the job that `arg_paths` spells out. `from_is_dir` says
    /// whether its source names an existing directory.
    pub fn from(arg_paths: ArgsType, from_is_dir: bool) -> (result: Result<FileOp, JobError>)
        requires
            arg_paths is CmdLine,
        ensures
            match classification(arg_paths->from@, from_is_dir) {
                Some(shape) => result matches Ok(job) && job.op == arg_paths->op && job.source@
                    == shape && job.to@ == arg_paths->to@,
                None => result matches Err(error) && error.reports(
                    ErrorKind::InvalidSource,
                    arg_paths->from@,
                ),
            },
    {
        match arg_paths {
            ArgsType::CmdLine { op, from, to } => {
                match classify(from.as_str(), from_is_dir) {
                    Ok(source) => Ok(FileOp { op, source, to }),
                    Err(error) => Err(error),
                }
            },
            ArgsType::Json { .. } => unreached(),
        }
    }

    /// The directory to walk for this job and whether to walk it to the
    /// bottom; `None` where the job needs no walk.
    pub fn walk_root(&self) -> (request: Option<(String, bool)>)
        ensures
            match walk_of(self.op, self.source@) {
                Some((root, recursive)) => request matches Some(r) && r.0@ == root && r.1
                    == recursive,
                None => request is None,
            },
    {
        match &self.source {
            ClassifiedSource::SingleFile(_) => None,
            ClassifiedSource::SingleDirectory(path) => match self.op {
                Operation::Move => None,
                _ => Some((path.clone(), true)),
            },
            ClassifiedSource::Filtered { root, extension, recursive } => Some(
                (root.clone(), *recursive),
            ),
        }
    }

    /// The pairs of this job, given what the walk of its root found. For a
    /// job that needs no walk, `walk` is not looked at.
    pub fn process(&self, walk: &Vec<WalkItem>) -> (result: Result<Vec<Paths>, JobError>)
        ensures
            match resolution(self.op, self.source@, self.to@, walk@) {
                Ok(found) => result matches Ok(list) && pairs(list@) == found,
                Err((kind, path)) => result matches Err(error) && error.reports(kind, path),
            },
    {
        match &self.source {
            ClassifiedSource::SingleFile(path) => Ok(self.whole(path)),
            ClassifiedSource::SingleDirectory(path) => self.dir_to_dir(path, walk),
            ClassifiedSource::Filtered { root, extension, recursive } => {
                let ext_specified = extension.as_str().unicode_len() > 0;
                self.get_src_dst_paths(
                    root.as_str(),
                    walk,
                    extension.as_str(),
                    !*recursive,
                    ext_specified,
                )
            },
        }
    }

    /// The job itself as its only pair.
    fn whole(&self, path: &String) -> (list: Vec<Paths>)
        ensures
            pairs(list@) == seq![(path@, self.to@)],
    {
        let mut list: Vec<Paths> = Vec::new();
        list.push(Paths { from: path.clone(), to: self.to.clone() });
        list
    }

    /// The pairs of a job whose source is the directory `path`.
    fn dir_to_dir(&self, path: &String, walk: &Vec<WalkItem>) -> (result: Result<
        Vec<Paths>,
        JobError,
    >)
        ensures
            match resolution(self.op, SourceShape::SingleDirectory(path@), self.to@, walk@) {
                Ok(found) => result matches Ok(list) && pairs(list@) == found,
                Err((kind, path)) => result matches Err(error) && error.reports(kind, path),
            },
    {
        match self.op {
            Operation::Move => Ok(self.whole(path)),
            Operation::Hardlink | Operation::Copy_ => {
                let all = String::new();
                self.get_src_dst_paths(path.as_str(), walk, all.as_str(), false, false)
            },
        }
    }

    /// The pairs that a search of `root` yields: the files of `walk` that are
    /// taken, each with its destination below `self.to`.
    pub fn get_src_dst_paths(
        &self,
        root: &str,
        walk: &Vec<WalkItem>,
        fname_filter: &str,
        only_cur_dir: bool,
        ext_specified: bool,
    ) -> (result: Result<Vec<Paths>, JobError>)
        ensures
            match search(root@, self.to@, fname_filter@, !only_cur_dir, ext_specified, walk@) {
                Ok(found) => result matches Ok(list) && pairs(list@) == found,
                Err((kind, path)) => result matches Err(error) && error.reports(kind, path),
            },
    {
        let sources = match enumerate(root, !only_cur_dir, fname_filter, walk) {
            Ok(sources) => sources,
            Err(error) => {
                return Err(error);
            },
        };
        let frame = Paths { from: root.to_owned(), to: self.to.clone() };
        let mut list: Vec<Paths> = Vec::new();
        let mut i: usize = 0;
        while i < sources.len()
            invariant
                i <= sources.len(),
                frame.from@ == root@,
                frame.to@ == self.to@,
                !walk_failed(walk@),
                texts(sources@) == yielded(root@, !only_cur_dir, fname_filter@, walk@),
                map_all(ext_specified, self.to@, root@, texts(sources@).take(i as int)) matches Ok(
                    found,
                ) && found == pairs(list@),
            decreases sources.len() - i,
        {
            let src = &sources[i];
            assert(texts(sources@).take(i + 1).drop_last() == texts(sources@).take(i as int));
            let mapped = if ext_specified {
                flatten(self.to.as_str(), src.as_str())
            } else {
                fix_offset(&frame, src.as_str())
            };
            match mapped {
                Ok(dst) => {
                    list.push(Paths { from: src.clone(), to: dst });
                },
                Err(error) => {
                    proof {
                        lemma_map_all_stops(ext_specified, self.to@, root@, texts(sources@), i + 1);
                    }
                    return Err(error);
                },
            }
            i += 1;
        }
        assert(texts(sources@).take(sources.len() as int) == texts(sources@));
        Ok(list)
    }
}

/// A mapping that fails on the first `n` sources fails on all of them, with
/// the same source.
pub proof fn lemma_map_all_stops(
    flat: bool,
    dest_dir: Seq<char>,
    root: Seq<char>,
    sources: Seq<Seq<char>>,
    n: int,
)
    requires
        0 <= n <= sources.len(),
        map_all(flat, dest_dir, root, sources.take(n)) is Err,
    ensures
        map_all(flat, dest_dir, root, sources) == map_all(flat, dest_dir, root, sources.take(n)),
    decreases sources.len() - n,
{
    if n < sources.len() {
        assert(sources.take(n + 1).drop_last() == sources.take(n));
        lemma_map_all_stops(flat, dest_dir, root, sources, n + 1);
    } else {
        assert(sources.take(n) == sources);
    }
}

/// Where offsets are kept, they are kept for every pair: in the pairs of a
/// directory that is copied or linked, and in those of a wildcard without a
/// suffix, each destination is the job's destination followed by what the
/// source has below the root of the walk.
pub proof fn law_every_pair_keeps_its_offset(
    op: Operation,
    source: SourceShape,
    to: Seq<char>,
    walk: Seq<WalkItem>,
    i: int,
)
    requires
        resolution(op, source, to, walk) is Ok,
        walk_of(op, source) is Some,
        source matches SourceShape::Filtered { extension, .. } ==> extension.len() == 0,
        0 <= i < resolution(op, source, to, walk)->Ok_0.len(),
    ensures
        ({
            let pair = resolution(op, source, to, walk)->Ok_0[i];
            let root = walk_of(op, source).unwrap().0;
            Some(pair.1) == offset_destination(to, root, pair.0)
        }),
{
    match source {
        SourceShape::Filtered { root, extension, recursive } => {
            lemma_map_all(false, to, root, yielded(root, recursive, extension, walk));
        },
        SourceShape::SingleDirectory(path) => {
            lemma_map_all(false, to, path, yielded(path, true, Seq::empty(), walk));
        },
        SourceShape::SingleFile(_) => {},
    }
}

/// Where names were narrowed, every pair is flat: each destination is the
/// source's own name directly in the job's destination.
pub proof fn law_every_match_lands_flat(
    op: Operation,
    source: SourceShape,
    to: Seq<char>,
    walk: Seq<WalkItem>,
    i: int,
)
    requires
        resolution(op, source, to, walk) is Ok,
        source matches SourceShape::Filtered { extension, .. } && extension.len() > 0,
        0 <= i < resolution(op, source, to, walk)->Ok_0.len(),
    ensures
        ({
            let pair = resolution(op, source, to, walk)->Ok_0[i];
            Some(pair.1) == flat_destination(to, pair.0)
        }),
{
    match source {
        SourceShape::Filtered { root, extension, recursive } => {
            lemma_map_all(true, to, root, yielded(root, recursive, extension, walk));
        },
        _ => {},
    }
}

} // verus!
