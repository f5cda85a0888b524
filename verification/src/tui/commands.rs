//! The browser's `:` commands: what a typed command line asks for.
use vstd::prelude::*;
use crate::text::{chars_of, eq_chars, join, join_with, split, split_set, string_of, trim_ws, trimmed_nonempty_exec, views, words, CharSet};
use crate::index::{normalize_note_path, note_rel_path};

verus! {

broadcast use vstd::string::group_string_axioms;

/// What a command line asks for.
#[derive(Debug, PartialEq, Eq)]
pub enum TuiCommand {
    /// Nothing (an empty line).
    Nothing,
    /// `:w`: write the open note.
    Save,
    /// `:w name`: write the unnamed note under a name.
    SaveAs(String),
    /// `:q` with nothing unsaved, or `:q!`.
    Quit,
    /// `:wq`: write the open note, then quit.
    WriteQuit,
    /// `:wq name`: write under a name, then quit once the note has one.
    WriteQuitAs(String),
    /// `:e path`: open the note at this path.
    Open(String),
    /// `:e! path`: open it, dropping unsaved changes.
    OpenForce(String),
    /// `:r`: reload the notes.
    Reload,
    /// `:sync [dir]`: reindex.
    Sync(Option<String>),
    /// `:del title`: delete the note with this title.
    DeleteByTitle(String),
    /// `:mkdir path`: create a directory.
    Mkdir(String),
    /// `:mv dir`: move the selected or open note.
    MoveTo(String),
    /// Only a message for the status line.
    Status(String),
}

/// A command as the specifications see it.
pub enum CommandView {
    Nothing,
    Save,
    SaveAs(Seq<char>),
    Quit,
    WriteQuit,
    WriteQuitAs(Seq<char>),
    Open(Seq<char>),
    OpenForce(Seq<char>),
    Reload,
    Sync(Option<Seq<char>>),
    DeleteByTitle(Seq<char>),
    Mkdir(Seq<char>),
    MoveTo(Seq<char>),
    Status(Seq<char>),
}

pub open spec fn command_view(c: TuiCommand) -> CommandView {
    match c {
        TuiCommand::Nothing => CommandView::Nothing,
        TuiCommand::Save => CommandView::Save,
        TuiCommand::SaveAs(s) => CommandView::SaveAs(s@),
        TuiCommand::Quit => CommandView::Quit,
        TuiCommand::WriteQuit => CommandView::WriteQuit,
        TuiCommand::WriteQuitAs(s) => CommandView::WriteQuitAs(s@),
        TuiCommand::Open(s) => CommandView::Open(s@),
        TuiCommand::OpenForce(s) => CommandView::OpenForce(s@),
        TuiCommand::Reload => CommandView::Reload,
        TuiCommand::Sync(o) => CommandView::Sync(
            match o {
                Some(s) => Some(s@),
                None => None,
            },
        ),
        TuiCommand::DeleteByTitle(s) => CommandView::DeleteByTitle(s@),
        TuiCommand::Mkdir(s) => CommandView::Mkdir(s@),
        TuiCommand::MoveTo(s) => CommandView::MoveTo(s@),
        TuiCommand::Status(s) => CommandView::Status(s@),
    }
}

/// What command line `line` asks for: its first word names the command and
/// the other words, joined by single spaces, are its argument. `dirty`
/// tells whether the open note has unsaved changes, `named` whether it has
/// a path.
pub open spec fn command_for(line: Seq<char>, dirty: bool, named: bool) -> CommandView {
    let ws = words(line);
    if ws.len() == 0 {
        CommandView::Nothing
    } else {
        let cmd = ws[0];
        let rest = join(ws.drop_first(), seq![' ']);
        if cmd == "w"@ {
            if rest.len() == 0 {
                CommandView::Save
            } else {
                CommandView::SaveAs(rest)
            }
        } else if cmd == "q"@ {
            if dirty {
                CommandView::Status("unsaved changes; use :q! to discard\nor :w"@)
            } else {
                CommandView::Quit
            }
        } else if cmd == "q!"@ {
            CommandView::Quit
        } else if cmd == "wq"@ {
            if rest.len() == 0 {
                if named {
                    CommandView::WriteQuit
                } else {
                    CommandView::Status("no note name; use :w <name> or\n:wq <name>"@)
                }
            } else {
                CommandView::WriteQuitAs(rest)
            }
        } else if cmd == "e"@ {
            if rest.len() == 0 {
                CommandView::Status("usage: :e <path>"@)
            } else {
                CommandView::Open(note_rel_path(rest))
            }
        } else if cmd == "e!"@ {
            if rest.len() == 0 {
                CommandView::Status("usage: :e! <path>"@)
            } else {
                CommandView::OpenForce(note_rel_path(rest))
            }
        } else if cmd == "r"@ {
            CommandView::Reload
        } else if cmd == "sync"@ {
            CommandView::Sync(
                if trim_ws(rest).len() == 0 {
                    None
                } else {
                    Some(trim_ws(rest))
                },
            )
        } else if cmd == "del"@ {
            if rest.len() == 0 {
                CommandView::Status("usage: :del <title>"@)
            } else {
                CommandView::DeleteByTitle(rest)
            }
        } else if cmd == "tags"@ {
            CommandView::Status("tags popup removed"@)
        } else if cmd == "mkdir"@ {
            if rest.len() == 0 {
                CommandView::Status("usage: :mkdir\n<dir/path>"@)
            } else {
                CommandView::Mkdir(rest)
            }
        } else if cmd == "mv"@ {
            if rest.len() == 0 {
                CommandView::Status("usage: :mv <dir/path>"@)
            } else {
                CommandView::MoveTo(rest)
            }
        } else {
            CommandView::Status("unknown command: "@ + cmd)
        }
    }
}

fn is(cmd: &Vec<char>, name: &str) -> (b: bool)
    ensures
        b == (cmd@ == name@),
{
    eq_chars(cmd, &chars_of(name))
}

/// Reading a command line.
pub fn parse_tui_command(line: &str, dirty: bool, named: bool) -> (r: TuiCommand)
    ensures
        command_view(r) == command_for(line@, dirty, named),
{
    let ws = trimmed_nonempty_exec(&split_set(&chars_of(line), CharSet::Whitespace));
    if ws.len() == 0 {
        return TuiCommand::Nothing;
    }
    let cmd = &ws[0];
    assert(words(line@)[0] == cmd@);
    let mut tail: Vec<Vec<char>> = Vec::new();
    let mut i: usize = 1;
    while i < ws.len()
        invariant
            1 <= i <= ws@.len(),
            views(tail@) == views(ws@).subrange(1, i as int),
        decreases ws.len() - i,
    {
        let w = ws[i].clone();
        proof {
            assert(views(tail@.push(w)) =~= views(tail@).push(w@));
            assert(views(ws@).subrange(1, i as int + 1) =~= views(ws@).subrange(1, i as int).push(ws@[i as int]@));
        }
        tail.push(w);
        i = i + 1;
    }
    assert(views(ws@).subrange(1, ws@.len() as int) =~= views(ws@).drop_first());
    let mut sp: Vec<char> = Vec::new();
    sp.push(' ');
    assert(sp@ =~= seq![' ']);
    let rest_chars = join_with(&tail, &sp);
    let rest = string_of(&rest_chars);
    let empty = rest_chars.len() == 0;
    if is(cmd, "w") {
        if empty {
            TuiCommand::Save
        } else {
            TuiCommand::SaveAs(rest)
        }
    } else if is(cmd, "q") {
        if dirty {
            TuiCommand::Status(String::from_str("unsaved changes; use :q! to discard\nor :w"))
        } else {
            TuiCommand::Quit
        }
    } else if is(cmd, "q!") {
        TuiCommand::Quit
    } else if is(cmd, "wq") {
        if empty {
            if named {
                TuiCommand::WriteQuit
            } else {
                TuiCommand::Status(String::from_str("no note name; use :w <name> or\n:wq <name>"))
            }
        } else {
            TuiCommand::WriteQuitAs(rest)
        }
    } else if is(cmd, "e") {
        if empty {
            TuiCommand::Status(String::from_str("usage: :e <path>"))
        } else {
            TuiCommand::Open(normalize_note_path(rest.as_str()))
        }
    } else if is(cmd, "e!") {
        if empty {
            TuiCommand::Status(String::from_str("usage: :e! <path>"))
        } else {
            TuiCommand::OpenForce(normalize_note_path(rest.as_str()))
        }
    } else if is(cmd, "r") {
        TuiCommand::Reload
    } else if is(cmd, "sync") {
        let t = crate::text::trim_whitespace(&rest_chars);
        if t.len() == 0 {
            TuiCommand::Sync(None)
        } else {
            TuiCommand::Sync(Some(string_of(&t)))
        }
    } else if is(cmd, "del") {
        if empty {
            TuiCommand::Status(String::from_str("usage: :del <title>"))
        } else {
            TuiCommand::DeleteByTitle(rest)
        }
    } else if is(cmd, "tags") {
        TuiCommand::Status(String::from_str("tags popup removed"))
    } else if is(cmd, "mkdir") {
        if empty {
            TuiCommand::Status(String::from_str("usage: :mkdir\n<dir/path>"))
        } else {
            TuiCommand::Mkdir(rest)
        }
    } else if is(cmd, "mv") {
        if empty {
            TuiCommand::Status(String::from_str("usage: :mv <dir/path>"))
        } else {
            TuiCommand::MoveTo(rest)
        }
    } else {
        let mut s = String::from_str("unknown command: ");
        let c = string_of(cmd);
        s.append(c.as_str());
        TuiCommand::Status(s)
    }
}

} // verus!
