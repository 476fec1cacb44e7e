//! What a source stands for.
//!
//! The final segment of a source may hold the wildcard `*`. Such a source
//! names the files of a directory rather than one entry: `*` those directly in
//! it, `**` those anywhere below it, and what follows the last `*` narrows them
//! by name. No other shape is read into the segment.

use crate::error::{ErrorKind, JobError};
use crate::path::{final_segment, is_separator, law_two_dots_are_no_name, parent_of, trim_end};
use crate::text::{from_range, to_chars};
use vstd::prelude::*;

verus! {

/// A source after classification.
#[derive(Clone, Debug, PartialEq, Eq)]
pub enum ClassifiedSource {
    /// One regular file, or a path that is no directory.
    SingleFile(String),
    /// One existing directory, taken as a unit.
    SingleDirectory(String),
    /// The files in or below `root` whose names hold `extension`.
    Filtered { root: String, extension: String, recursive: bool },
}

/// A classified source over plain text.
pub enum SourceShape {
    SingleFile(Seq<char>),
    SingleDirectory(Seq<char>),
    Filtered { root: Seq<char>, extension: Seq<char>, recursive: bool },
}

impl View for ClassifiedSource {
    type V = SourceShape;

    open spec fn view(&self) -> SourceShape {
        match self {
            ClassifiedSource::SingleFile(path) => SourceShape::SingleFile(path@),
            ClassifiedSource::SingleDirectory(path) => SourceShape::SingleDirectory(path@),
            ClassifiedSource::Filtered { root, extension, recursive } => SourceShape::Filtered {
                root: root@,
                extension: extension@,
                recursive: *recursive,
            },
        }
    }
}

/// Whether the segment holds a wildcard.
pub open spec fn has_wildcard(segment: Seq<char>) -> bool {
    exists|i: int| 0 <= i < segment.len() && #[trigger] segment[i] == '*'
}

/// Whether the segment holds two wildcards side by side.
pub open spec fn has_double_wildcard(segment: Seq<char>) -> bool {
    exists|i: int| 0 <= i < segment.len() - 1 && #[trigger] segment[i] == '*' && segment[i + 1] == '*'
}

/// The index behind the last wildcard of the segment; 0 where it has none.
pub open spec fn suffix_start(segment: Seq<char>) -> int
    decreases segment.len(),
{
    if segment.len() == 0 || segment.last() == '*' {
        segment.len() as int
    } else {
        suffix_start(segment.drop_last())
    }
}

/// What follows the last wildcard of the segment: the text that a file's name
/// must hold. Empty where the segment ends with a wildcard.
pub open spec fn extension_of(segment: Seq<char>) -> Seq<char> {
    segment.skip(suffix_start(segment))
}

/// What `source` stands for, `is_dir` saying whether it names an existing
/// directory. A source without a final segment stands for nothing.
pub open spec fn classification(source: Seq<char>, is_dir: bool) -> Option<SourceShape> {
    match final_segment(source) {
        None => None,
        Some(segment) => Some(
            if has_wildcard(segment) {
                SourceShape::Filtered {
                    root: parent_of(source).unwrap(),
                    extension: extension_of(segment),
                    recursive: has_double_wildcard(segment),
                }
            } else if is_dir {
                SourceShape::SingleDirectory(source)
            } else {
                SourceShape::SingleFile(source)
            },
        ),
    }
}

/// Where the suffix begins: at the start of the segment or just behind a
/// wildcard, with no wildcard from there on.
pub proof fn lemma_suffix_start(segment: Seq<char>)
    ensures
        0 <= suffix_start(segment) <= segment.len(),
        suffix_start(segment) > 0 ==> segment[suffix_start(segment) - 1] == '*',
        forall|i: int| suffix_start(segment) <= i < segment.len() ==> #[trigger] segment[i] != '*',
        has_wildcard(segment) <==> suffix_start(segment) > 0,
    decreases segment.len(),
{
    if segment.len() > 0 && segment.last() != '*' {
        let front = segment.drop_last();
        lemma_suffix_start(front);
        let k = suffix_start(segment);
        assert forall|i: int| k <= i < segment.len() implies #[trigger] segment[i] != '*' by {
            if i < segment.len() - 1 {
                assert(front[i] == segment[i]);
            }
        }
    }
}

/// The suffix of a segment that ends with text free of wildcards behind a
/// wildcard is that text.
pub proof fn lemma_extension_after_wildcard(head: Seq<char>, suffix: Seq<char>)
    requires
        forall|i: int| 0 <= i < suffix.len() ==> #[trigger] suffix[i] != '*',
    ensures
        extension_of(head.push('*') + suffix) == suffix,
{
    let segment = head.push('*') + suffix;
    lemma_suffix_start(segment);
    assert(segment[head.len() as int] == '*');
}

/// What the files to take must hold in their names, for a final segment
/// `file_name` with a wildcard in it.
pub fn get_ext(file_name: &str) -> (extension: String)
    ensures
        extension@ == extension_of(file_name@),
{
    let chars = to_chars(file_name);
    let start = wildcard_end(&chars);
    from_range(&chars, start, chars.len())
}

/// The index behind the last wildcard.
fn wildcard_end(segment: &Vec<char>) -> (start: usize)
    ensures
        start == suffix_start(segment@),
        start <= segment.len(),
{
    let mut start = segment.len();
    proof {
        lemma_suffix_start(segment@);
    }
    while start > 0 && segment[start - 1] != '*'
        invariant
            start <= segment.len(),
            0 <= suffix_start(segment@) <= start,
            suffix_start(segment@) > 0 ==> segment@[suffix_start(segment@) - 1] == '*',
            forall|i: int| suffix_start(segment@) <= i < segment.len() ==> #[trigger] segment@[i]
                != '*',
        decreases start,
    {
        start -= 1;
    }
    start
}

/// Whether two wildcards stand side by side in the segment.
fn double_wildcard(segment: &Vec<char>) -> (found: bool)
    ensures
        found == has_double_wildcard(segment@),
{
    let mut i: usize = 1;
    while i < segment.len()
        invariant
            1 <= i,
            forall|j: int| 0 <= j < i - 1 && j < segment.len() - 1 ==> !(#[trigger] segment@[j] == '*'
                && segment@[j + 1] == '*'),
        decreases segment.len() - i,
    {
        if segment[i - 1] == '*' && segment[i] == '*' {
            return true;
        }
        i += 1;
    }
    false
}

/// Classifies `source_spec`. `is_dir` says whether the path names an existing
/// directory; it is looked at only where the final segment holds no wildcard.
pub fn classify(source_spec: &str, is_dir: bool) -> (result: Result<ClassifiedSource, JobError>)
    ensures
        match classification(source_spec@, is_dir) {
            Some(shape) => result matches Ok(source) && source@ == shape,
            None => result matches Err(error) && error.reports(ErrorKind::InvalidSource, source_spec@),
        },
{
    match crate::path::file_name(source_spec) {
        None => Err(JobError::new(ErrorKind::InvalidSource, source_spec)),
        Some(name) => {
            let segment = to_chars(name.as_str());
            let start = wildcard_end(&segment);
            proof {
                lemma_suffix_start(segment@);
            }
            if start > 0 {
                let root = match crate::path::parent(source_spec) {
                    Some(root) => root,
                    None => unreached(),
                };
                Ok(
                    ClassifiedSource::Filtered {
                        root,
                        extension: from_range(&segment, start, segment.len()),
                        recursive: double_wildcard(&segment),
                    },
                )
            } else if is_dir {
                Ok(ClassifiedSource::SingleDirectory(source_spec.to_owned()))
            } else {
                Ok(ClassifiedSource::SingleFile(source_spec.to_owned()))
            }
        },
    }
}

/// A source whose final segment is the bare wildcard stands for the files
/// directly in its parent, whatever their names.
pub proof fn law_bare_wildcard(source: Seq<char>, is_dir: bool)
    requires
        final_segment(source) == Some(seq!['*']),
    ensures
        classification(source, is_dir) matches Some(
            SourceShape::Filtered { root, extension, recursive },
        ) && extension == Seq::<char>::empty() && !recursive && Some(root) == parent_of(source),
{
    lemma_suffix_start(seq!['*']);
}

/// A source whose final segment is two wildcards and then a suffix free of
/// wildcards stands for the files anywhere below its parent whose names hold
/// that suffix.
pub proof fn law_double_wildcard(source: Seq<char>, suffix: Seq<char>, is_dir: bool)
    requires
        final_segment(source) == Some(seq!['*', '*'] + suffix),
        forall|i: int| 0 <= i < suffix.len() ==> #[trigger] suffix[i] != '*',
    ensures
        classification(source, is_dir) matches Some(
            SourceShape::Filtered { root, extension, recursive },
        ) && extension == suffix && recursive && Some(root) == parent_of(source),
{
    let segment = seq!['*', '*'] + suffix;
    assert(segment[0int] == '*' && segment[0int + 1] == '*');
    assert(seq!['*', '*'] == seq!['*'].push('*'));
    lemma_extension_after_wildcard(seq!['*'], suffix);
}

/// A source that ends with two dots stands for nothing: it names the
/// directory above, not an entry.
pub proof fn law_two_dots_are_no_source(front: Seq<char>, is_dir: bool)
    requires
        front.len() == 0 || is_separator(front.last()),
    ensures
        classification(front + seq!['.', '.'], is_dir) is None,
{
    let source = front + seq!['.', '.'];
    assert(trim_end(source) == source);
    law_two_dots_are_no_name(front, source);
}

} // verus!
