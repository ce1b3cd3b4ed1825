//! The operator console's command language: `help`/`?`, `skip <match-id>`,
//! `poll`. Reading lines and echoing answers is the driver's edge; what a
//! line means is decided here.

use vstd::prelude::*;
use crate::database::parsed_u32;
use crate::schema::SendouId;
use crate::strutil::str_eq;

verus! {

/// What one console line asks for.
#[derive(Clone, Copy, PartialEq, Eq, Structural, Debug)]
pub enum ConsoleCommand {
    /// Print the command list.
    Help,
    /// Add this match id to the excluded-match set.
    Skip(SendouId),
    /// A skip whose argument is not a match id.
    SkipInvalid,
    /// Run a reconciliation cycle now.
    Poll,
    /// Anything else; the console echoes a pointer to `help`.
    Unknown,
}

/// The meaning of one line: `help` and `?` print the command list; a line
/// starting with `skip ` names a match to exclude, if its argument parses;
/// `poll` forces a cycle; everything else is unknown.
pub open spec fn spec_parse_command(line: Seq<char>) -> ConsoleCommand {
    if line == "help"@ || line == "?"@ {
        ConsoleCommand::Help
    } else if line.len() >= "skip "@.len() && line.subrange(0, "skip "@.len() as int)
        == "skip "@ {
        match parsed_u32(line.subrange("skip "@.len() as int, line.len() as int)) {
            Some(id) => ConsoleCommand::Skip(id),
            None => ConsoleCommand::SkipInvalid,
        }
    } else if line == "poll"@ {
        ConsoleCommand::Poll
    } else {
        ConsoleCommand::Unknown
    }
}

/// Relies on str::strip_prefix: the remainder after a literal prefix, when
/// the slice starts with it.
#[verifier::external_body]
fn strip_prefix_str<'a>(s: &'a str, prefix: &str) -> (r: Option<&'a str>)
    ensures
        match r {
            Some(rest) => s@ == prefix@ + rest@,
            None => forall|rest: Seq<char>| s@ != prefix@ + rest,
        },
{
    s.strip_prefix(prefix)
}

/// Parses one console line.
pub fn parse_command(line: &str) -> (r: ConsoleCommand)
    ensures
        r == spec_parse_command(line@),
{
    if str_eq(line, "help") || str_eq(line, "?") {
        ConsoleCommand::Help
    } else {
        let stripped = strip_prefix_str(line, "skip ");
        proof {
            let p = "skip "@;
            match stripped {
                Some(rest) => {
                    assert(line@.len() >= p.len());
                    assert(line@.subrange(0, p.len() as int) =~= p);
                    assert(line@.subrange(p.len() as int, line@.len() as int) =~= rest@);
                },
                None => {
                    if line@.len() >= p.len() && line@.subrange(0, p.len() as int) == p {
                        let tail = line@.subrange(p.len() as int, line@.len() as int);
                        assert(line@ =~= p + tail);
                    }
                },
            }
        }
        match stripped {
            Some(rest) => match crate::database::parse_u32(rest) {
                Some(id) => ConsoleCommand::Skip(id),
                None => ConsoleCommand::SkipInvalid,
            },
            None => {
                if str_eq(line, "poll") {
                    ConsoleCommand::Poll
                } else {
                    ConsoleCommand::Unknown
                }
            },
        }
    }
}

} // verus!
