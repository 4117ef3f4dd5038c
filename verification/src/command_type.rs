//! The kinds of command, named by their first word.
use crate::errors;
use crate::text::{owned, same_text};
use std::str::FromStr;
use vstd::prelude::*;

verus! {

/// The kind of a command (its leading keyword).
#[derive(Debug, PartialEq, Eq)]
pub enum CommandType {
    /// Command `set`.
    SetKey,
    /// Command `get`.
    Get,
    /// Command `length`.
    Length,
    /// Command `snapshot`.
    Snapshot,
}

/// The kind that a keyword names, if any (case-sensitive).
pub open spec fn keyword_type(s: Seq<char>) -> Option<CommandType> {
    if s == "set"@ {
        Some(CommandType::SetKey)
    } else if s == "get"@ {
        Some(CommandType::Get)
    } else if s == "length"@ {
        Some(CommandType::Length)
    } else if s == "snapshot"@ {
        Some(CommandType::Snapshot)
    } else {
        None
    }
}

impl CommandType {
    /// Reads a keyword: "set", "get", "length" or "snapshot" (case-sensitive).
    /// Any other text is an `UNKNOWN COMMAND`.
    pub fn from_keyword(s: &str) -> (r: Result<CommandType, String>)
        ensures
            match keyword_type(s@) {
                Some(t) => r == Ok::<CommandType, String>(t),
                None => r is Err && r->Err_0@ == errors::UNKNOWN_COMMAND@,
            },
    {
        if same_text(s, "set") {
            Ok(CommandType::SetKey)
        } else if same_text(s, "get") {
            Ok(CommandType::Get)
        } else if same_text(s, "length") {
            Ok(CommandType::Length)
        } else if same_text(s, "snapshot") {
            Ok(CommandType::Snapshot)
        } else {
            Err(owned(errors::UNKNOWN_COMMAND))
        }
    }
}

impl FromStr for CommandType {
    type Err = String;

    /// Converts a keyword into a `CommandType`; see `CommandType::from_keyword`.
    fn from_str(s: &str) -> (r: Result<Self, Self::Err>)
        ensures
            match keyword_type(s@) {
                Some(t) => r == Ok::<CommandType, String>(t),
                None => r is Err && r->Err_0@ == errors::UNKNOWN_COMMAND@,
            },
    {
        CommandType::from_keyword(s)
    }
}

} // verus!
