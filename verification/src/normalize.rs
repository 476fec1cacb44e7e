//! Paths made regular before they are used.
//!
//! Paths arrive with either slash, and with slashes doubled where pieces were
//! put together carelessly. Two forms are offered: all backslashes, as a
//! Windows tool wants them, and all forward slashes with none repeated.

use crate::text::{from_chars, replace, replace_all, to_chars};
use vstd::prelude::*;

verus! {

/// `path` with each forward slash turned into a backslash and then, from left
/// to right, each pair of backslashes made one.
pub open spec fn windows_form(path: Seq<char>) -> Seq<char> {
    replace_all(replace_all(path, "/"@, "\\"@), "\\\\"@, "\\"@)
}

/// `c`, or `/` in place of a backslash.
pub open spec fn forward(c: char) -> char {
    if c == '\\' {
        '/'
    } else {
        c
    }
}

/// `path` with each backslash turned into a forward slash and each run of
/// slashes made one.
pub open spec fn slash_form(path: Seq<char>) -> Seq<char>
    decreases path.len(),
{
    if path.len() == 0 {
        path
    } else {
        let front = slash_form(path.drop_last());
        let last = forward(path.last());
        if last == '/' && path.len() >= 2 && forward(path[path.len() - 2]) == '/' {
            front
        } else {
            front.push(last)
        }
    }
}

/// The path as a Windows tool wants it.
pub fn fix_windows_path(path: String) -> (fixed: String)
    ensures
        fixed@ == windows_form(path@),
{
    let turned = replace(path.as_str(), "/", "\\");
    replace(turned.as_str(), "\\\\", "\\")
}

/// The path with forward slashes only, none of them repeated.
pub fn fix_path(input: &str) -> (fixed: String)
    ensures
        fixed@ == slash_form(input@),
{
    let chars = to_chars(input);
    let mut out: Vec<char> = Vec::new();
    let mut i: usize = 0;
    while i < chars.len()
        invariant
            i <= chars.len(),
            out@ == slash_form(chars@.take(i as int)),
        decreases chars.len() - i,
    {
        let c = if chars[i] == '\\' {
            '/'
        } else {
            chars[i]
        };
        let repeated = c == '/' && i > 0 && (chars[i - 1] == '/' || chars[i - 1] == '\\');
        assert(chars@.take(i + 1).drop_last() == chars@.take(i as int));
        if !repeated {
            out.push(c);
        }
        i += 1;
    }
    assert(chars@.take(chars.len() as int) == chars@);
    from_chars(&out)
}

} // verus!
