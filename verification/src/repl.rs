//! Classification of prompt input lines: meta-commands versus statements.
//!
//! The prompt loop itself (reading lines, printing) lives in the embedding
//! program; the decision of what a trimmed line means is made here.

use crate::virtual_machine::ResultRow;
use vstd::prelude::*;
use vstd::string::{StrSliceExecFns, StringSliceAdditionalSpecFns};

verus! {

/// What the prompt does with one (trimmed) input line.
pub enum ReplAction<'a> {
    /// Leave the loop.
    Exit,
    /// Hand the line to the statement parser.
    Statement { original_input: &'a str },
    /// A meta-command the prompt does not know.
    Unsupported { original_input: &'a str },
}

/// A meta-command: a line starting with a dot.
pub enum MetaCommand {
    Exit,
    Unsupported,
}

/// What the prompt reports for one executed statement.
#[derive(Debug)]
pub enum ReplResult {
    Rows(Vec<ResultRow>),
    Success,
}

/// The byte string `.exit`.
pub open spec fn spec_exit_command() -> Seq<u8> {
    seq![46u8, 101u8, 120u8, 105u8, 116u8]
}

fn is_exit_bytes(bytes: &Vec<u8>) -> (r: bool)
    ensures
        r == (bytes@ == spec_exit_command()),
{
    if bytes.len() != 5 {
        return false;
    }
    if bytes[0] != 46 {
        return false;
    }
    if bytes[1] != 101 {
        return false;
    }
    if bytes[2] != 120 {
        return false;
    }
    if bytes[3] != 105 {
        return false;
    }
    if bytes[4] != 116 {
        return false;
    }
    proof {
        assert(bytes@ =~= spec_exit_command());
    }
    true
}

/// Classifies a dotted line as a meta-command: `.exit` leaves the loop,
/// any other meta-command is unsupported.  The input is expected already
/// trimmed by the line reader.
pub fn meta_command(s: &str) -> (m: MetaCommand)
    ensures
        m is Exit <==> s.spec_bytes() == spec_exit_command(),
{
    let bytes: Vec<u8> = s.as_bytes_vec();
    if is_exit_bytes(&bytes) {
        MetaCommand::Exit
    } else {
        MetaCommand::Unsupported
    }
}

/// Classifies one (trimmed) input line: a line whose first byte is a dot is
/// a meta-command, anything else (the empty line included) is handed to the
/// statement parser unchanged.
pub fn repl_action<'a>(s: &'a str) -> (a: ReplAction<'a>)
    ensures
        ({
            let b = s.spec_bytes();
            &&& (b.len() > 0 && b[0] == 46 ==> {
                &&& (b == spec_exit_command() ==> a is Exit)
                &&& (b != spec_exit_command() ==> {
                    &&& a matches ReplAction::Unsupported { original_input }
                    &&& original_input@ == s@
                })
            })
            &&& (!(b.len() > 0 && b[0] == 46) ==> {
                &&& a matches ReplAction::Statement { original_input }
                &&& original_input@ == s@
            })
        }),
{
    let bytes: Vec<u8> = s.as_bytes_vec();
    if bytes.len() > 0 && bytes[0] == 46 {
        match meta_command(s) {
            MetaCommand::Exit => ReplAction::Exit,
            MetaCommand::Unsupported => ReplAction::Unsupported { original_input: s },
        }
    } else {
        ReplAction::Statement { original_input: s }
    }
}

} // verus!
