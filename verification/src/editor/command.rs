use vstd::prelude::*;
use crate::editor::address::{parse_range_chars, range_at, AddressRange};
use crate::editor::error::{EditorError, ErrorKind};
use crate::text::{
    chars_of, push_all, slice_chars, string_of, trim_start, trim_start_set, trim_whitespace,
    trim_ws, CharSet,
};

verus! {

broadcast use vstd::string::group_string_axioms;

/// A parsed editor command.
#[derive(Debug)]
pub enum Command {
    Print { range: Option<AddressRange>, numbered: bool },
    Delete { range: Option<AddressRange> },
    Append { at: Option<AddressRange> },
    Insert { at: Option<AddressRange> },
    Change { range: Option<AddressRange> },
    Write { path: Option<String> },
    Edit { path: Option<String> },
    Quit { force: bool },
}

/// A command with its path as characters.
pub enum CmdView {
    Print { range: Option<AddressRange>, numbered: bool },
    Delete { range: Option<AddressRange> },
    Append { at: Option<AddressRange> },
    Insert { at: Option<AddressRange> },
    Change { range: Option<AddressRange> },
    Write { path: Option<Seq<char>> },
    Edit { path: Option<Seq<char>> },
    Quit { force: bool },
}

pub open spec fn opt_string_view(o: Option<String>) -> Option<Seq<char>> {
    match o {
        Some(s) => Some(s@),
        None => None,
    }
}

pub open spec fn cmd_view(c: Command) -> CmdView {
    match c {
        Command::Print { range, numbered } => CmdView::Print { range, numbered },
        Command::Delete { range } => CmdView::Delete { range },
        Command::Append { at } => CmdView::Append { at },
        Command::Insert { at } => CmdView::Insert { at },
        Command::Change { range } => CmdView::Change { range },
        Command::Write { path } => CmdView::Write { path: opt_string_view(path) },
        Command::Edit { path } => CmdView::Edit { path: opt_string_view(path) },
        Command::Quit { force } => CmdView::Quit { force },
    }
}

/// A path argument: none when empty.
pub open spec fn path_arg(arg: Seq<char>) -> Option<Seq<char>> {
    if arg.len() == 0 {
        None
    } else {
        Some(arg)
    }
}

/// The message for a command that takes no argument but got one.
pub open spec fn no_arg_message(c: char, arg: Seq<char>) -> Seq<char> {
    "command '"@.push(c) + "' does not take arguments: "@ + arg
}

/// The letters of the commands that take no argument.
pub open spec fn no_arg_letter(c: char) -> bool {
    c == 'p' || c == 'n' || c == 'd' || c == 'a' || c == 'i' || c == 'c' || c == 'q' || c == 'Q'
}

pub open spec fn no_arg_command(c: char, range: Option<AddressRange>) -> CmdView {
    if c == 'p' {
        CmdView::Print { range, numbered: false }
    } else if c == 'n' {
        CmdView::Print { range, numbered: true }
    } else if c == 'd' {
        CmdView::Delete { range }
    } else if c == 'a' {
        CmdView::Append { at: range }
    } else if c == 'i' {
        CmdView::Insert { at: range }
    } else if c == 'c' {
        CmdView::Change { range }
    } else if c == 'q' {
        CmdView::Quit { force: false }
    } else {
        CmdView::Quit { force: true }
    }
}

/// What a command line means: an optional address range, then a letter and
/// its argument; an empty line (or a bare range) prints.
pub open spec fn command_of(input: Seq<char>) -> Result<CmdView, (ErrorKind, Seq<char>)> {
    let t = trim_ws(input);
    if t.len() == 0 {
        Ok(CmdView::Print { range: None, numbered: false })
    } else {
        match range_at(t) {
            Err(m) => Err((ErrorKind::InvalidAddress, m)),
            Ok(opt) => {
                let range = match opt {
                    Some((r, _)) => Some(r),
                    None => None,
                };
                let consumed = match opt {
                    Some((_, n)) => n,
                    None => 0,
                };
                let body = trim_start(t.skip(consumed as int), CharSet::Whitespace);
                if body.len() == 0 {
                    Ok(CmdView::Print { range, numbered: false })
                } else {
                    let c = body[0];
                    let arg = trim_ws(body.drop_first());
                    if c == 'w' {
                        Ok(CmdView::Write { path: path_arg(arg) })
                    } else if c == 'e' {
                        Ok(CmdView::Edit { path: path_arg(arg) })
                    } else if no_arg_letter(c) {
                        if arg.len() > 0 {
                            Err((ErrorKind::InvalidCommand, no_arg_message(c, arg)))
                        } else {
                            Ok(no_arg_command(c, range))
                        }
                    } else {
                        Err((ErrorKind::InvalidCommand, body))
                    }
                }
            },
        }
    }
}

pub open spec fn error_view(e: EditorError) -> (ErrorKind, Seq<char>) {
    match e {
        EditorError::InvalidAddress(m) => (ErrorKind::InvalidAddress, m@),
        EditorError::InvalidCommand(m) => (ErrorKind::InvalidCommand, m@),
        EditorError::MissingFilename => (ErrorKind::MissingFilename, Seq::<char>::empty()),
        EditorError::EmptyBuffer => (ErrorKind::EmptyBuffer, Seq::<char>::empty()),
        EditorError::OutOfRange => (ErrorKind::OutOfRange, Seq::<char>::empty()),
        EditorError::UnsavedChanges => (ErrorKind::UnsavedChanges, Seq::<char>::empty()),
        EditorError::Io(_) => (ErrorKind::Io, Seq::<char>::empty()),
    }
}

pub open spec fn command_result_view(r: Result<Command, EditorError>) -> Result<
    CmdView,
    (ErrorKind, Seq<char>),
> {
    match r {
        Ok(c) => Ok(cmd_view(c)),
        Err(e) => Err(error_view(e)),
    }
}

fn no_arg_error(c: char, arg: &Vec<char>) -> (e: EditorError)
    ensures
        error_view(e) == (ErrorKind::InvalidCommand, no_arg_message(c, arg@)),
{
    let mut m = chars_of("command '");
    m.push(c);
    push_all(&mut m, &chars_of("' does not take arguments: "));
    push_all(&mut m, arg);
    EditorError::InvalidCommand(string_of(&m))
}

fn path_of(arg: &Vec<char>) -> (r: Option<String>)
    ensures
        opt_string_view(r) == path_arg(arg@),
{
    if arg.len() == 0 {
        None
    } else {
        Some(string_of(arg))
    }
}

/// Parses one command line.
pub fn parse_command(input: &str) -> (r: Result<Command, EditorError>)
    ensures
        command_result_view(r) == command_of(input@),
{
    let trimmed = trim_whitespace(&chars_of(input));
    if trimmed.len() == 0 {
        return Ok(Command::Print { range: None, numbered: false });
    }
    let parsed = parse_range_chars(&trimmed);
    let (range, consumed) = match parsed {
        Err(e) => {
            return Err(e);
        },
        Ok(Some((r, n))) => (Some(r), n),
        Ok(None) => (None, 0),
    };
    let after = slice_chars(&trimmed, consumed, trimmed.len());
    assert(after@ =~= trimmed@.skip(consumed as int));
    let body = trim_start_set(&after, CharSet::Whitespace);
    if body.len() == 0 {
        return Ok(Command::Print { range, numbered: false });
    }
    let c = body[0];
    let rest = slice_chars(&body, 1, body.len());
    assert(rest@ =~= body@.drop_first());
    let arg = trim_whitespace(&rest);
    if c == 'w' {
        return Ok(Command::Write { path: path_of(&arg) });
    }
    if c == 'e' {
        return Ok(Command::Edit { path: path_of(&arg) });
    }
    if c == 'p' || c == 'n' || c == 'd' || c == 'a' || c == 'i' || c == 'c' || c == 'q' || c
        == 'Q' {
        if arg.len() > 0 {
            return Err(no_arg_error(c, &arg));
        }
        let cmd = if c == 'p' {
            Command::Print { range, numbered: false }
        } else if c == 'n' {
            Command::Print { range, numbered: true }
        } else if c == 'd' {
            Command::Delete { range }
        } else if c == 'a' {
            Command::Append { at: range }
        } else if c == 'i' {
            Command::Insert { at: range }
        } else if c == 'c' {
            Command::Change { range }
        } else if c == 'q' {
            Command::Quit { force: false }
        } else {
            Command::Quit { force: true }
        };
        return Ok(cmd);
    }
    Err(EditorError::InvalidCommand(string_of(&body)))
}

} // verus!
