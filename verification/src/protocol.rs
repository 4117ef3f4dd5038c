//! The lines that the server answers with.
use crate::text::{owned, push_char};
use vstd::prelude::*;
use vstd::string::StringExecFns;

verus! {

/// The answer line of an error message: `ERROR "<message>"`.
pub open spec fn error_text(e: Seq<char>) -> Seq<char> {
    "ERROR "@ + seq!['"'] + e + seq!['"']
}

/// The answer line of a command's outcome, as a spec value.
pub open spec fn reply_text(r: Result<Option<Seq<char>>, Seq<char>>) -> Seq<char> {
    match r {
        Ok(Some(s)) => s,
        Ok(None) => "OK"@,
        Err(e) => error_text(e),
    }
}

/// The outcome of a command with its texts as sequences of characters.
pub open spec fn outcome(r: Result<Option<String>, String>) -> Result<Option<Seq<char>>, Seq<char>> {
    match r {
        Ok(Some(s)) => Ok(Some(s@)),
        Ok(None) => Ok(None),
        Err(e) => Err(e@),
    }
}

/// Formats an error message as an answer line: `ERROR "<message>"`.
pub fn error_line(e: &str) -> (r: String)
    ensures
        r@ == error_text(e@),
{
    let mut line = owned("ERROR ");
    push_char(&mut line, '"');
    line.append(e);
    push_char(&mut line, '"');
    assert(line@ =~= error_text(e@));
    line
}

/// The answer line of a command's outcome: the text it returned, `OK` when it
/// returned none, or its error as an `ERROR` line.
pub fn reply_line(result: &Result<Option<String>, String>) -> (r: String)
    ensures
        r@ == reply_text(outcome(*result)),
{
    match result {
        Ok(Some(s)) => s.clone(),
        Ok(None) => owned("OK"),
        Err(e) => error_line(e.as_str()),
    }
}

} // verus!
