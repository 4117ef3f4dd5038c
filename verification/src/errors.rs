//! Error messages of MiniKV.
use vstd::prelude::*;

verus! {

// Client errors (recoverable).
pub const EXTRA_ARGUMENT: &'static str = "EXTRA ARGUMENT";

pub const MISSING_ARGUMENT: &'static str = "MISSING ARGUMENT";

pub const NOT_FOUND: &'static str = "NOT FOUND";

pub const UNKNOWN_COMMAND: &'static str = "UNKNOWN COMMAND";

// Communication errors.
pub const CLIENT_SOCKET_BINDING: &'static str = "CLIENT SOCKET BINDING";

pub const CONNECTION_CLOSED: &'static str = "CONNECTION CLOSED";

pub const POISONED_LOCK: &'static str = "POISONED LOCK";

pub const TIMEOUT: &'static str = "TIMEOUT";

// Server errors (unrecoverable).
pub const INVALID_ARGS: &'static str = "INVALID ARGS";

pub const INVALID_DATA_FILE: &'static str = "INVALID DATA FILE";

pub const INVALID_LOG_FILE: &'static str = "INVALID LOG FILE";

pub const SERVER_SOCKET_BINDING: &'static str = "SERVER SOCKET BINDING";

} // verus!
