//! What the caller asks for.

use crate::text::{from_range, same_text, to_chars};
use vstd::prelude::*;

verus! {

/// What is done with each file.
#[derive(Clone, Copy, Debug, PartialEq, Eq, Structural)]
pub enum Operation {
    Copy_,
    Move,
    Hardlink,
}

/// A request as it arrives: one job spelled out, or a file of jobs with the
/// values of the variables that it uses.
#[derive(Clone, Debug, PartialEq)]
pub enum ArgsType {
    CmdLine { op: Operation, from: String, to: String },
    Json { json_file: String, variables: Option<Vec<(String, String)>> },
}

/// The operation that goes by `name`; there are three names.
pub open spec fn operation_named(name: Seq<char>) -> Option<Operation> {
    if name == "copy"@ {
        Some(Operation::Copy_)
    } else if name == "move"@ {
        Some(Operation::Move)
    } else if name == "hardlink"@ {
        Some(Operation::Hardlink)
    } else {
        None
    }
}

/// The index of the first `c` in `text` at or behind `from`, or the length of
/// `text` where there is none.
pub open spec fn first_index_of(text: Seq<char>, c: char, from: int) -> int
    decreases text.len() - from,
{
    if from < 0 || from >= text.len() {
        text.len() as int
    } else if text[from] == c {
        from
    } else {
        first_index_of(text, c, from + 1)
    }
}

/// A variable given as `NAME=VALUE`, taken apart: the name is what stands
/// before the first `=`, the value what stands between it and the next `=` or
/// the end. Text without `=` gives nothing.
pub open spec fn variable_of(text: Seq<char>) -> Option<(Seq<char>, Seq<char>)> {
    let eq = first_index_of(text, '=', 0);
    if eq >= text.len() {
        None
    } else {
        Some((text.take(eq), text.subrange(eq + 1, first_index_of(text, '=', eq + 1))))
    }
}

/// Where `first_index_of` points: not before `from`, not behind the end, at a
/// `c` unless at the end, with no `c` between `from` and there.
pub proof fn lemma_first_index_of(text: Seq<char>, c: char, from: int)
    requires
        0 <= from <= text.len(),
    ensures
        from <= first_index_of(text, c, from) <= text.len(),
        first_index_of(text, c, from) < text.len() ==> text[first_index_of(text, c, from)] == c,
        forall|i: int| from <= i < first_index_of(text, c, from) ==> #[trigger] text[i] != c,
    decreases text.len() - from,
{
    if from < text.len() && text[from] != c {
        lemma_first_index_of(text, c, from + 1);
    }
}

impl Operation {
    /// The operation that goes by `name`.
    pub fn from_name(name: &str) -> (op: Option<Operation>)
        ensures
            op == operation_named(name@),
    {
        let chars = to_chars(name);
        if same_text(&chars, &to_chars("copy")) {
            Some(Operation::Copy_)
        } else if same_text(&chars, &to_chars("move")) {
            Some(Operation::Move)
        } else if same_text(&chars, &to_chars("hardlink")) {
            Some(Operation::Hardlink)
        } else {
            None
        }
    }
}

/// The index of the first `c` at or behind `from`, or the length.
fn find_char(text: &Vec<char>, c: char, from: usize) -> (at: usize)
    requires
        from <= text.len(),
    ensures
        at == first_index_of(text@, c, from as int),
        from <= at <= text.len(),
{
    let mut at = from;
    while at < text.len() && text[at] != c
        invariant
            from <= at <= text.len(),
            first_index_of(text@, c, at as int) == first_index_of(text@, c, from as int),
        decreases text.len() - at,
    {
        at += 1;
    }
    proof {
        lemma_first_index_of(text@, c, at as int);
    }
    at
}

/// Takes a variable given as `NAME=VALUE` apart.
pub fn parse_variable(text: &str) -> (pair: Option<(String, String)>)
    ensures
        match variable_of(text@) {
            Some((name, value)) => pair matches Some(p) && p.0@ == name && p.1@ == value,
            None => pair is None,
        },
{
    let chars = to_chars(text);
    let eq = find_char(&chars, '=', 0);
    if eq >= chars.len() {
        None
    } else {
        let end = find_char(&chars, '=', eq + 1);
        Some((from_range(&chars, 0, eq), from_range(&chars, eq + 1, end)))
    }
}

} // verus!
