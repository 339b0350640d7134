//! Tool errors and the program path of a run request.
use vstd::prelude::*;

use crate::text::{
    chars_have_white_space, has_white_space, is_white_space, string_of, trim, trim_end, trim_start,
    trimmed,
};

verus! {

/// How a tool call is refused, in the protocol's terms.
#[derive(Clone, Copy, Debug, PartialEq, Eq, Structural)]
pub enum ErrorKind {
    InvalidParams,
    PermissionDenied,
    Internal,
}

/// A refused tool call: its kind and its message.
#[derive(Clone, Debug)]
pub struct ToolError {
    pub kind: ErrorKind,
    pub message: String,
}

/// Whether `e` is of kind `kind` with the message `message`.
pub open spec fn is_error(e: ToolError, kind: ErrorKind, message: Seq<char>) -> bool {
    e.kind == kind && e.message@ == message
}

pub open spec fn empty_program_message() -> Seq<char> {
    "program must not be empty"@
}

pub open spec fn spaced_program_message() -> Seq<char> {
    "program must be a single program path without whitespace"@
}

/// A program path is checked after trimming: it must be non-empty and hold
/// no white space. Gives the trimmed path, or the message of the refusal.
pub open spec fn program_check(program: Seq<char>) -> Result<Seq<char>, Seq<char>> {
    let t = trim(program);
    if t.len() == 0 {
        Err(empty_program_message())
    } else if has_white_space(t) {
        Err(spaced_program_message())
    } else {
        Ok(t)
    }
}

/// The check's result as seen from a returned value.
pub open spec fn program_check_gives(program: Seq<char>, r: Result<String, ToolError>) -> bool {
    match r {
        Ok(p) => program_check(program) == Ok::<Seq<char>, Seq<char>>(p@),
        Err(e) => e.kind == ErrorKind::InvalidParams && program_check(program) == Err::<
            Seq<char>,
            Seq<char>,
        >(e.message@),
    }
}

/// Trims a program path and refuses it where it is empty or holds white space.
pub fn normalize_program(program: String) -> (r: Result<String, ToolError>)
    ensures
        program_check_gives(program@, r),
{
    let t = trimmed(program.as_str());
    if t.len() == 0 {
        return Err(
            ToolError {
                kind: ErrorKind::InvalidParams,
                message: String::from_str("program must not be empty"),
            },
        );
    }
    if chars_have_white_space(t.as_slice()) {
        return Err(
            ToolError {
                kind: ErrorKind::InvalidParams,
                message: String::from_str(
                    "program must be a single program path without whitespace",
                ),
            },
        );
    }
    Ok(string_of(t.as_slice()))
}

/// A program path is its own trimmed form when it is non-empty and holds
/// no white space.
pub proof fn lemma_trim_of_clean(s: Seq<char>)
    requires
        s.len() > 0,
        !has_white_space(s),
    ensures
        trim(s) == s,
{
    assert(!is_white_space(s[0]));
    assert(trim_start(s) == s);
    assert(!is_white_space(s[s.len() - 1]));
    assert(trim_end(s) == s);
}

/// A normalized program path is non-empty, holds no white space, and
/// normalizing it again gives it back unchanged.
pub proof fn law_normalize_idempotent(program: Seq<char>)
    ensures
        program_check(program) matches Ok(p) ==> {
            &&& p.len() > 0
            &&& !has_white_space(p)
            &&& program_check(p) == Ok::<Seq<char>, Seq<char>>(p)
        },
{
    if let Ok(p) = program_check(program) {
        lemma_trim_of_clean(p);
    }
}

/// A program to run with elevation, and its arguments.
#[derive(Clone, Debug)]
pub struct CommandRequest {
    pub program: String,
    pub args: Vec<String>,
}

impl CommandRequest {
    /// Builds a request from a program path, normalized, and optional arguments.
    pub fn new(command: String, args: Option<Vec<String>>) -> (r: Result<Self, ToolError>)
        ensures
            match r {
                Ok(req) => {
                    &&& program_check(command@) == Ok::<Seq<char>, Seq<char>>(req.program@)
                    &&& req.args@ == (match args {
                        Some(a) => a@,
                        None => Seq::empty(),
                    })
                },
                Err(e) => e.kind == ErrorKind::InvalidParams && program_check(command@) == Err::<
                    Seq<char>,
                    Seq<char>,
                >(e.message@),
            },
    {
        let program = normalize_program(command)?;
        let args = match args {
            Some(a) => a,
            None => Vec::new(),
        };
        Ok(CommandRequest { program, args })
    }
}

} // verus!
