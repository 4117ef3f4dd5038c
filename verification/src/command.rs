//! The commands of MiniKV: reading them from words, and running them on a store.
use crate::command_type::{keyword_type, CommandType};
use crate::errors;
use crate::format::log_text;
use crate::protocol::outcome;
use crate::item::{snapshot_of, snapshot_texts, str_texts, texts, Item};
use crate::text::{decimal, decimal_text, owned};
use vstd::prelude::*;

verus! {

/// A command that the store can run.
#[derive(Debug)]
pub enum Command {
    /// Sets a key (`set <key> <value>`), or unsets it when no value is given
    /// (`set <key>`).
    SetKey {
        /// The key to set or unset.
        key: String,
        /// The value to give it; none to unset it.
        value: Option<String>,
    },
    /// Reads the value of a key: `get <key>`.
    Get {
        /// The key to read.
        key: String,
    },
    /// Counts the keys: `length`.
    Length,
    /// Writes a snapshot of the store: `snapshot`.
    Snapshot,
}

/// A command with its texts as sequences of characters.
pub enum CommandView {
    SetKey { key: Seq<char>, value: Option<Seq<char>> },
    Get { key: Seq<char> },
    Length,
    Snapshot,
}

impl View for Command {
    type V = CommandView;

    open spec fn view(&self) -> CommandView {
        match self {
            Command::SetKey { key, value } => CommandView::SetKey {
                key: key@,
                value: match value {
                    Some(v) => Some(v@),
                    None => None,
                },
            },
            Command::Get { key } => CommandView::Get { key: key@ },
            Command::Length => CommandView::Length,
            Command::Snapshot => CommandView::Snapshot,
        }
    }
}

/// `length` and `snapshot` take no argument.
pub open spec fn bare_command(args: Seq<Seq<char>>, c: CommandView) -> Result<CommandView, Seq<char>> {
    if args.len() == 1 {
        Ok(c)
    } else {
        Err(errors::EXTRA_ARGUMENT@)
    }
}

/// `get` takes exactly a key.
pub open spec fn get_command(args: Seq<Seq<char>>) -> Result<CommandView, Seq<char>> {
    if args.len() == 1 {
        Err(errors::MISSING_ARGUMENT@)
    } else if args.len() == 2 {
        Ok(CommandView::Get { key: args[1] })
    } else {
        Err(errors::EXTRA_ARGUMENT@)
    }
}

/// `set` takes a key and, to set it rather than unset it, a value.
pub open spec fn set_command(args: Seq<Seq<char>>) -> Result<CommandView, Seq<char>> {
    if args.len() == 1 {
        Err(errors::MISSING_ARGUMENT@)
    } else if args.len() == 2 {
        Ok(CommandView::SetKey { key: args[1], value: None })
    } else if args.len() == 3 {
        Ok(CommandView::SetKey { key: args[1], value: Some(args[2]) })
    } else {
        Err(errors::EXTRA_ARGUMENT@)
    }
}

/// The command that a list of words stands for, or the error message.
pub open spec fn command_of(args: Seq<Seq<char>>) -> Result<CommandView, Seq<char>> {
    if args.len() == 0 {
        Err(errors::UNKNOWN_COMMAND@)
    } else {
        match keyword_type(args[0]) {
            None => Err(errors::UNKNOWN_COMMAND@),
            Some(CommandType::Length) => bare_command(args, CommandView::Length),
            Some(CommandType::Snapshot) => bare_command(args, CommandView::Snapshot),
            Some(CommandType::Get) => get_command(args),
            Some(CommandType::SetKey) => set_command(args),
        }
    }
}

/// A result as a spec value: a command or an error message.
pub open spec fn parsed(r: Result<Command, String>) -> Result<CommandView, Seq<char>> {
    match r {
        Ok(c) => Ok(c@),
        Err(e) => Err(e@),
    }
}

/// What a command does to a store, and what it answers: `set` sets or unsets
/// its key; `get` answers the key's value, or `NOT FOUND`; `length` answers
/// the number of keys in decimal; `snapshot` answers nothing. Only `set`
/// changes the store.
pub open spec fn command_step(c: CommandView, m: Map<Seq<char>, Seq<char>>) -> (
    Map<Seq<char>, Seq<char>>,
    Result<Option<Seq<char>>, Seq<char>>,
) {
    match c {
        CommandView::SetKey { key, value: Some(v) } => (m.insert(key, v), Ok(None)),
        CommandView::SetKey { key, value: None } => (m.remove(key), Ok(None)),
        CommandView::Get { key } => (
            m,
            if m.contains_key(key) {
                Ok(Some(m[key]))
            } else {
                Err(errors::NOT_FOUND@)
            },
        ),
        CommandView::Length => (m, Ok(Some(decimal_text(m.len())))),
        CommandView::Snapshot => (m, Ok(None)),
    }
}

/// What must reach the files before a command takes effect in memory.
pub enum Persist {
    /// Nothing to write.
    Nothing,
    /// Append this record to the log file.
    AppendLog(String),
    /// Replace the snapshot file with these lines, then empty the log file.
    WriteSnapshot(Vec<String>),
}

impl Command {
    /// Reads a command from its words. Fails with `UNKNOWN COMMAND` when the
    /// first word is missing or names no command, and with `MISSING ARGUMENT`
    /// or `EXTRA ARGUMENT` when the number of words does not fit the command.
    pub fn analyze_command(args: &[String]) -> (r: Result<Command, String>)
        ensures
            parsed(r) == command_of(texts(args@)),
    {
        let ghost a = texts(args@);
        if args.len() == 0 {
            return Err(owned(errors::UNKNOWN_COMMAND));
        }
        assert(a[0] == args@[0]@);
        let cmd_type = match CommandType::from_keyword(args[0].as_str()) {
            Ok(t) => t,
            Err(e) => {
                return Err(e);
            },
        };
        match cmd_type {
            CommandType::Length => Self::parse_length(args),
            CommandType::Snapshot => Self::parse_snapshot(args),
            CommandType::Get => Self::parse_get(args),
            CommandType::SetKey => Self::parse_set(args),
        }
    }

    /// `length`, with no argument.
    fn parse_length(args: &[String]) -> (r: Result<Command, String>)
        ensures
            parsed(r) == bare_command(texts(args@), CommandView::Length),
    {
        if args.len() == 1 {
            Ok(Command::Length)
        } else {
            Err(owned(errors::EXTRA_ARGUMENT))
        }
    }

    /// `snapshot`, with no argument.
    fn parse_snapshot(args: &[String]) -> (r: Result<Command, String>)
        ensures
            parsed(r) == bare_command(texts(args@), CommandView::Snapshot),
    {
        if args.len() == 1 {
            Ok(Command::Snapshot)
        } else {
            Err(owned(errors::EXTRA_ARGUMENT))
        }
    }

    /// `get`, with exactly a key.
    fn parse_get(args: &[String]) -> (r: Result<Command, String>)
        ensures
            parsed(r) == get_command(texts(args@)),
    {
        let ghost a = texts(args@);
        if args.len() == 1 {
            Err(owned(errors::MISSING_ARGUMENT))
        } else if args.len() == 2 {
            assert(a[1] == args@[1]@);
            Ok(Command::Get { key: owned(args[1].as_str()) })
        } else {
            Err(owned(errors::EXTRA_ARGUMENT))
        }
    }

    /// `set`, with a key and an optional value.
    fn parse_set(args: &[String]) -> (r: Result<Command, String>)
        ensures
            parsed(r) == set_command(texts(args@)),
    {
        let ghost a = texts(args@);
        if args.len() == 1 {
            Err(owned(errors::MISSING_ARGUMENT))
        } else if args.len() == 2 {
            assert(a[1] == args@[1]@);
            Ok(Command::SetKey { key: owned(args[1].as_str()), value: None })
        } else if args.len() == 3 {
            assert(a[1] == args@[1]@ && a[2] == args@[2]@);
            Ok(
                Command::SetKey {
                    key: owned(args[1].as_str()),
                    value: Some(owned(args[2].as_str())),
                },
            )
        } else {
            Err(owned(errors::EXTRA_ARGUMENT))
        }
    }

    /// What must be written to the files before the command runs: the log
    /// record of a `set`, or the snapshot lines of the store for `snapshot`.
    pub fn pending_write(&self, items: &Item) -> (p: Persist)
        ensures
            match self@ {
                CommandView::SetKey { key, value: Some(v) } => (p matches Persist::AppendLog(l)
                    && l@ == log_text(seq!["set"@, key, v])),
                CommandView::SetKey { key, value: None } => (p matches Persist::AppendLog(l) && l@
                    == log_text(seq!["set"@, key])),
                CommandView::Snapshot => (p matches Persist::WriteSnapshot(ls) && texts(ls@)
                    == snapshot_texts(items.entries()) && snapshot_of(items@, texts(ls@))),
                _ => p is Nothing,
            },
    {
        match self {
            Command::SetKey { key, value } => match value {
                Some(v) => {
                    let args = vec!["set", key.as_str(), v.as_str()];
                    assert(str_texts(args@) =~= seq!["set"@, key@, v@]);
                    match Item::log_line(args.as_slice()) {
                        Some(line) => Persist::AppendLog(line),
                        None => Persist::Nothing,
                    }
                },
                None => {
                    let args = vec!["set", key.as_str()];
                    assert(str_texts(args@) =~= seq!["set"@, key@]);
                    match Item::log_line(args.as_slice()) {
                        Some(line) => Persist::AppendLog(line),
                        None => Persist::Nothing,
                    }
                },
            },
            Command::Snapshot => Persist::WriteSnapshot(items.data_lines()),
            _ => Persist::Nothing,
        }
    }

    /// Runs the command on the store, once what `pending_write` asks for is
    /// written. Returns the text to show, if any: the value for `get` (or
    /// `NOT FOUND`), the number of keys for `length`, nothing for `set` and
    /// `snapshot`.
    pub fn execute(self, items: &mut Item) -> (r: Result<Option<String>, String>)
        ensures
            (final(items)@, outcome(r)) == command_step(self@, old(items)@),
    {
        match self {
            Command::SetKey { key, value } => {
                match value {
                    Some(v) => items.set(key, v),
                    None => items.unset(key),
                }
                Ok(None)
            },
            Command::Get { key } => match items.get(key.as_str()) {
                Some(val) => Ok(Some(val.clone())),
                None => Err(owned(errors::NOT_FOUND)),
            },
            Command::Length => Ok(Some(decimal(items.length()))),
            Command::Snapshot => Ok(None),
        }
    }

    /// Finishes a command once the write that `pending_write` asked for has
    /// been tried: when the write failed, its error is the command's error and
    /// the store is left as it was; otherwise the command runs as `execute`.
    pub fn commit(self, items: &mut Item, written: Result<(), String>) -> (r: Result<
        Option<String>,
        String,
    >)
        ensures
            match written {
                Ok(_) => (final(items)@, outcome(r)) == command_step(self@, old(items)@),
                Err(e) => final(items)@ == old(items)@ && outcome(r) == Err::<
                    Option<Seq<char>>,
                    Seq<char>,
                >(e@),
            },
    {
        match written {
            Ok(()) => self.execute(items),
            Err(e) => Err(e),
        }
    }
}

} // verus!
