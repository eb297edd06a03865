//! Streaming a command's output into a capture.

use vstd::prelude::*;
use crate::util::{sanitize_label, spec_sanitize_label};

verus! {

/// Why `follow` cannot start.
#[derive(Debug, PartialEq, Eq, Structural)]
pub enum FollowError {
    /// No command was given.
    NoCommand,
}

/// The capture label for a `follow` run: the sanitized label, or
/// `NoCommand` when there is no command to run.
pub fn follow_label(label: &str, cmd: &Vec<String>) -> (res: Result<String, FollowError>)
    ensures
        cmd@.len() == 0 <==> res is Err,
        res matches Err(e) ==> e == FollowError::NoCommand,
        res matches Ok(l) ==> l@ == spec_sanitize_label(label@),
{
    if cmd.len() == 0 {
        Err(FollowError::NoCommand)
    } else {
        Ok(sanitize_label(label))
    }
}

/// The exit code of the run: the child's code, or 0 / 1 by its success
/// when it has none (killed by a signal).
pub open spec fn spec_exit_code(code: Option<i32>, success: bool) -> i32 {
    match code {
        Some(c) => c,
        None => if success {
            0
        } else {
            1
        },
    }
}

/// Computes `spec_exit_code`.
pub fn exit_code(code: Option<i32>, success: bool) -> (res: i32)
    ensures
        res == spec_exit_code(code, success),
{
    match code {
        Some(c) => c,
        None => if success {
            0
        } else {
            1
        },
    }
}

/// `parts` joined with `sep` between them (`[T]::join`).
pub open spec fn joined(parts: Seq<Seq<char>>, sep: Seq<char>) -> Seq<char>
    decreases parts.len(),
{
    if parts.len() == 0 {
        Seq::empty()
    } else if parts.len() == 1 {
        parts[0]
    } else {
        joined(parts.drop_last(), sep) + sep + parts.last()
    }
}

/// The command as one line, its words separated by spaces.
pub fn command_line(cmd: &Vec<String>) -> (res: String)
    ensures
        res@ == joined(cmd.deep_view(), " "@),
{
    let mut out = String::new();
    let n = cmd.len();
    let ghost words = cmd.deep_view();
    for i in 0..n
        invariant
            n == cmd@.len(),
            words == cmd.deep_view(),
            out@ == joined(words.take(i as int), " "@),
    {
        if i > 0 {
            out.append(" ");
        }
        out.append(cmd[i].as_str());
        assert(words.take(i + 1).drop_last() =~= words.take(i as int));
        assert(words[i as int] == cmd@[i as int]@);
    }
    assert(words.take(n as int) =~= words);
    out
}

/// The run exits with the child's own code when it has one; a child
/// without one (killed by a signal) gives 0 if it succeeded, else 1.
pub proof fn lemma_exit_code_passes_through(code: Option<i32>, success: bool)
    ensures
        code is Some ==> spec_exit_code(code, success) == code->0,
        code is None && success ==> spec_exit_code(code, success) == 0,
        code is None && !success ==> spec_exit_code(code, success) == 1,
{
}

/// The command line puts exactly one space between consecutive words: a
/// last word `w` after at least one other comes after the line of the
/// others and a space.
pub proof fn lemma_command_line_spaces(words: Seq<Seq<char>>, w: Seq<char>)
    ensures
        joined(seq![w], " "@) == w,
        words.len() > 0 ==> joined(words.push(w), " "@) == joined(words, " "@) + seq![' '] + w,
{
    reveal_strlit(" ");
    assert(" "@ =~= seq![' ']);
    assert(words.push(w).drop_last() =~= words);
}

} // verus!
