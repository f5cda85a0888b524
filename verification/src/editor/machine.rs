use vstd::prelude::*;
use crate::editor::address::{Addr, AddressRange};
use crate::editor::command::{
    cmd_view, command_of, command_result_view, error_view, opt_string_view, parse_command, CmdView,
    Command,
};
use crate::editor::error::{EditorError, ErrorKind};
use crate::editor::event::{events_view, Event};
use crate::editor::storage::Storage;
use crate::index::{strs, strings_of};
use crate::text::{
    chars_of, decimal, decimal_chars, join, push_all, split, split_set, string_of, CharSet, views,
};

verus! {

broadcast use vstd::string::group_string_axioms;

/// Lines typed in input mode, waiting for the closing `.`.
enum PendingInput {
    Append { after: usize, lines: Vec<String> },
    Change { start: usize, end: usize, lines: Vec<String> },
}

pub enum PendingView {
    Append { after: nat, lines: Seq<Seq<char>> },
    Change { start: nat, end: nat, lines: Seq<Seq<char>> },
}

/// The state of an editor: its buffer, the current line (1-based, 0 when
/// there is none), whether the buffer differs from the file, the file name,
/// and the input being collected.
pub struct EditorView {
    pub lines: Seq<Seq<char>>,
    pub current: nat,
    pub modified: bool,
    pub file_path: Option<Seq<char>>,
    pub pending: Option<PendingView>,
}

/// What one call gives back.
pub struct ExecOutcome {
    pub events: Vec<Event>,
    pub should_quit: bool,
}

pub enum OutView {
    Done { events: Seq<(bool, Seq<char>)>, quit: bool },
    Failed { kind: ErrorKind, text: Seq<char> },
}

pub open spec fn out_view(r: Result<ExecOutcome, EditorError>) -> OutView {
    match r {
        Ok(o) => OutView::Done { events: events_view(o.events@), quit: o.should_quit },
        Err(e) => OutView::Failed { kind: error_view(e).0, text: error_view(e).1 },
    }
}

pub struct Editor<S: Storage> {
    storage: S,
    lines: Vec<String>,
    current: usize,
    modified: bool,
    file_path: Option<String>,
    pending: Option<PendingInput>,
}

// ---------------------------------------------------------------------------
// The model
// ---------------------------------------------------------------------------

pub open spec fn wf_view(v: EditorView) -> bool {
    &&& v.current <= v.lines.len()
    &&& match v.pending {
        Some(PendingView::Append { after, .. }) => after <= v.lines.len(),
        Some(PendingView::Change { start, end, .. }) => 1 <= start <= end <= v.lines.len(),
        None => true,
    }
}

/// The line an address names, in a non-empty buffer.
pub open spec fn addr_num(v: EditorView, a: Addr) -> nat {
    match a {
        Addr::Current => if v.current == 0 {
            1
        } else {
            v.current
        },
        Addr::Last => v.lines.len(),
        Addr::Absolute(n) => n as nat,
    }
}

pub open spec fn range_ends(range: Option<AddressRange>) -> (Addr, Addr) {
    match range {
        Some(r) => (r.start, r.end),
        None => (Addr::Current, Addr::Current),
    }
}

/// The lines a range names, or why it names none.
pub open spec fn range_value(v: EditorView, range: Option<AddressRange>) -> Result<
    (nat, nat),
    (ErrorKind, Seq<char>),
> {
    if v.lines.len() == 0 {
        Err((ErrorKind::EmptyBuffer, Seq::<char>::empty()))
    } else {
        let a = addr_num(v, range_ends(range).0);
        let b = addr_num(v, range_ends(range).1);
        if a == 0 || b == 0 || a > v.lines.len() || b > v.lines.len() {
            Err((ErrorKind::OutOfRange, Seq::<char>::empty()))
        } else if a > b {
            Err((ErrorKind::InvalidAddress, "start > end"@))
        } else {
            Ok((a, b))
        }
    }
}

/// The line after which `a`/`i` insert, or why there is none.
pub open spec fn insert_point(v: EditorView, range: Option<AddressRange>) -> Result<
    nat,
    (ErrorKind, Seq<char>),
> {
    if v.lines.len() == 0 {
        Ok(0)
    } else {
        match range {
            Some(r) if addr_num(v, r.start) != addr_num(v, r.end) => Err(
                (ErrorKind::InvalidAddress, "insert/append takes single address"@),
            ),
            _ => {
                let x = addr_num(v, range_ends(range).1);
                if x == 0 || x > v.lines.len() {
                    Err((ErrorKind::OutOfRange, Seq::<char>::empty()))
                } else {
                    Ok(x)
                }
            },
        }
    }
}

/// The current line after the lines `start..=end` are deleted.
pub open spec fn current_after_delete(len_after: nat, start: nat) -> nat {
    if len_after == 0 {
        0
    } else if start <= len_after {
        start
    } else {
        len_after
    }
}

/// The buffer as written to a file: lines joined by newlines, with a final
/// newline unless that text is empty.
pub open spec fn serialize(lines: Seq<Seq<char>>) -> Seq<char> {
    let j = join(lines, seq!['\n']);
    if j.len() == 0 {
        j
    } else {
        j.push('\n')
    }
}

/// A file's text as buffer lines.
pub open spec fn split_lines(content: Seq<char>) -> Seq<Seq<char>> {
    if content.len() == 0 {
        Seq::<Seq<char>>::empty()
    } else {
        let p = split(content, CharSet::Only('\n'));
        if content.last() == '\n' {
            p.drop_last()
        } else {
            p
        }
    }
}

pub open spec fn message(text: Seq<char>) -> Seq<(bool, Seq<char>)> {
    seq![(false, text)]
}

pub open spec fn input_mode_message() -> Seq<char> {
    "enter input mode, finish with '.'"@
}

/// The lines `start..=end`, numbered or not.
pub open spec fn printed(lines: Seq<Seq<char>>, start: nat, end: nat, numbered: bool) -> Seq<
    (bool, Seq<char>),
> {
    Seq::new(
        (end + 1 - start) as nat,
        |k: int|
            (
                true,
                if numbered {
                    decimal((start + k) as nat).push('\t') + lines[start + k - 1]
                } else {
                    lines[start + k - 1]
                },
            ),
    )
}

pub open spec fn same_except_current(pre: EditorView, post: EditorView, current: nat) -> bool {
    &&& post.lines == pre.lines
    &&& post.current == current
    &&& post.modified == pre.modified
    &&& post.file_path == pre.file_path
    &&& post.pending == pre.pending
}

pub open spec fn unchanged(pre: EditorView, post: EditorView) -> bool {
    same_except_current(pre, post, pre.current)
}

pub open spec fn failed(out: OutView, e: (ErrorKind, Seq<char>)) -> bool {
    out == OutView::Failed { kind: e.0, text: e.1 }
}

pub open spec fn done(out: OutView, events: Seq<(bool, Seq<char>)>, quit: bool) -> bool {
    out == OutView::Done { events, quit }
}

/// The effect of a command outside input mode. `Write` and `Edit` go through
/// storage, which may fail, and `Edit` loads whatever the storage returns.
pub open spec fn command_step(pre: EditorView, cmd: CmdView, post: EditorView, out: OutView) -> bool {
    match cmd {
        CmdView::Print { range, numbered } => match range_value(pre, range) {
            Err(e) => unchanged(pre, post) && failed(out, e),
            Ok((s, e)) => same_except_current(pre, post, e) && done(
                out,
                printed(pre.lines, s, e, numbered),
                false,
            ),
        },
        CmdView::Delete { range } => match range_value(pre, range) {
            Err(e) => unchanged(pre, post) && failed(out, e),
            Ok((s, e)) => {
                &&& post.lines == pre.lines.take(s - 1) + pre.lines.skip(e as int)
                &&& post.current == current_after_delete(post.lines.len(), s)
                &&& post.modified
                &&& post.file_path == pre.file_path
                &&& post.pending == pre.pending
                &&& done(out, message(decimal(post.current)), false)
            },
        },
        CmdView::Append { at } => match insert_point(pre, at) {
            Err(e) => unchanged(pre, post) && failed(out, e),
            Ok(x) => {
                &&& post == EditorView {
                    pending: Some(PendingView::Append { after: x, lines: Seq::empty() }),
                    ..pre
                }
                &&& done(out, message(input_mode_message()), false)
            },
        },
        CmdView::Insert { at } => match insert_point(pre, at) {
            Err(e) => unchanged(pre, post) && failed(out, e),
            Ok(x) => {
                &&& post == EditorView {
                    pending: Some(
                        PendingView::Append {
                            after: if x == 0 {
                                0
                            } else {
                                (x - 1) as nat
                            },
                            lines: Seq::empty(),
                        },
                    ),
                    ..pre
                }
                &&& done(out, message(input_mode_message()), false)
            },
        },
        CmdView::Change { range } => match range_value(pre, range) {
            Err(e) => unchanged(pre, post) && failed(out, e),
            Ok((s, e)) => {
                &&& post == EditorView {
                    pending: Some(PendingView::Change { start: s, end: e, lines: Seq::empty() }),
                    ..pre
                }
                &&& done(out, message(input_mode_message()), false)
            },
        },
        CmdView::Write { path } => {
            let target = match path {
                Some(p) => Some(p),
                None => pre.file_path,
            };
            match target {
                None => unchanged(pre, post) && failed(out, (ErrorKind::MissingFilename, Seq::empty())),
                Some(t) => {
                    &&& post.lines == pre.lines
                    &&& post.current == pre.current
                    &&& post.file_path == Some(t)
                    &&& post.pending == pre.pending
                    &&& {
                        ||| (post.modified == pre.modified && failed(
                            out,
                            (ErrorKind::Io, Seq::empty()),
                        ))
                        ||| (!post.modified && done(
                            out,
                            message(
                                decimal(
                                    (vstd::utf8::encode_utf8(serialize(pre.lines)).len() as usize) as nat,
                                ),
                            ),
                            false,
                        ))
                    }
                },
            }
        },
        CmdView::Edit { path } => {
            let target = match path {
                Some(p) => Some(p),
                None => pre.file_path,
            };
            if pre.modified {
                unchanged(pre, post) && failed(out, (ErrorKind::UnsavedChanges, Seq::empty()))
            } else {
                match target {
                    None => unchanged(pre, post) && failed(
                        out,
                        (ErrorKind::MissingFilename, Seq::empty()),
                    ),
                    Some(t) => {
                        &&& post.file_path == Some(t)
                        &&& post.pending == pre.pending
                        &&& {
                            ||| (post.lines == pre.lines && post.current == pre.current
                                && post.modified == pre.modified && failed(
                                out,
                                (ErrorKind::Io, Seq::empty()),
                            ))
                            ||| ((exists|content: Seq<char>| post.lines == split_lines(content))
                                && post.current == post.lines.len() && !post.modified && done(
                                out,
                                message(decimal(post.lines.len())),
                                false,
                            ))
                        }
                    },
                }
            }
        },
        CmdView::Quit { force } => {
            &&& unchanged(pre, post)
            &&& if pre.modified && !force {
                failed(out, (ErrorKind::UnsavedChanges, Seq::empty()))
            } else {
                done(out, Seq::empty(), true)
            }
        },
    }
}

/// The effect of a line typed in input mode: `.` applies the collected
/// lines, anything else is collected.
pub open spec fn input_step(pre: EditorView, p: PendingView, input: Seq<char>, post: EditorView, out: OutView) -> bool {
    if input == seq!['.'] {
        &&& post.file_path == pre.file_path
        &&& post.pending is None
        &&& post.modified
        &&& done(out, message(decimal(post.current)), false)
        &&& match p {
            PendingView::Append { after, lines } => {
                let at = if after <= pre.lines.len() {
                    after
                } else {
                    pre.lines.len()
                };
                &&& post.lines == pre.lines.take(at as int) + lines + pre.lines.skip(at as int)
                &&& post.current == if lines.len() == 0 {
                    after
                } else {
                    at + lines.len()
                }
            },
            PendingView::Change { start, end, lines } => {
                &&& post.lines == pre.lines.take(start - 1) + lines + pre.lines.skip(end as int)
                &&& post.current == if lines.len() == 0 {
                    if start <= post.lines.len() {
                        start
                    } else {
                        post.lines.len()
                    }
                } else {
                    (start + lines.len() - 1) as nat
                }
            },
        }
    } else {
        &&& post.lines == pre.lines
        &&& post.current == pre.current
        &&& post.modified == pre.modified
        &&& post.file_path == pre.file_path
        &&& post.pending == Some(
            match p {
                PendingView::Append { after, lines } => PendingView::Append {
                    after,
                    lines: lines.push(input),
                },
                PendingView::Change { start, end, lines } => PendingView::Change {
                    start,
                    end,
                    lines: lines.push(input),
                },
            },
        )
        &&& done(out, Seq::empty(), false)
    }
}

/// One call of `execute`.
/// The file a `w` or `e` names: its own path, else the buffer's.
pub open spec fn target_of(pre: EditorView, path: Option<Seq<char>>) -> Option<Seq<char>> {
    match path {
        Some(p) => Some(p),
        None => pre.file_path,
    }
}

/// What a command hands to storage and takes from it: `w` hands the buffer,
/// as the text it is written as, to be written at the target, and succeeds
/// exactly when that write went through; a successful `e` loads the lines of
/// what reading the target gave.
pub open spec fn storage_step<S: Storage>(s: S, pre: EditorView, cmd: CmdView, post: EditorView, out: OutView) -> bool {
    match cmd {
        CmdView::Write { path } => match target_of(pre, path) {
            Some(t) => s.write_took(t, serialize(pre.lines), out is Done),
            None => true,
        },
        CmdView::Edit { path } => match target_of(pre, path) {
            Some(t) => out is Done ==> exists|c: Seq<char>| s.read_gave(t, c) && post.lines == split_lines(c),
            None => true,
        },
        _ => true,
    }
}

pub open spec fn step(pre: EditorView, input: Seq<char>, post: EditorView, out: OutView) -> bool {
    match pre.pending {
        Some(p) => input_step(pre, p, input, post, out),
        None => match command_of(input) {
            Err(e) => unchanged(pre, post) && failed(out, e),
            Ok(cmd) => command_step(pre, cmd, post, out),
        },
    }
}


// ---------------------------------------------------------------------------
// The implementation
// ---------------------------------------------------------------------------

spec fn pending_view(p: Option<PendingInput>) -> Option<PendingView> {
    match p {
        Some(PendingInput::Append { after, lines }) => Some(
            PendingView::Append { after: after as nat, lines: strs(lines@) },
        ),
        Some(PendingInput::Change { start, end, lines }) => Some(
            PendingView::Change { start: start as nat, end: end as nat, lines: strs(lines@) },
        ),
        None => None,
    }
}

/// `lines[..from] ++ ins ++ lines[to..]`.
fn splice_lines(lines: &Vec<String>, from: usize, to: usize, ins: &Vec<String>) -> (r: Vec<String>)
    requires
        from <= to <= lines.len(),
    ensures
        strs(r@) == strs(lines@).take(from as int) + strs(ins@) + strs(lines@).skip(to as int),
{
    let ghost lv = strs(lines@);
    let ghost iv = strs(ins@);
    let mut r: Vec<String> = Vec::new();
    let mut i: usize = 0;
    while i < from
        invariant
            i <= from <= to <= lines.len(),
            lv == strs(lines@),
            strs(r@) == lv.take(i as int),
        decreases from - i,
    {
        let x = lines[i].clone();
        proof {
            assert(strs(r@.push(x)) =~= strs(r@).push(x@));
            assert(lv[i as int] == x@);
            assert(strs(r@.push(x)) =~= lv.take(i as int + 1));
        }
        r.push(x);
        i = i + 1;
    }
    let mut j: usize = 0;
    while j < ins.len()
        invariant
            j <= ins.len(),
            iv == strs(ins@),
            strs(r@) == lv.take(from as int) + iv.take(j as int),
        decreases ins.len() - j,
    {
        let x = ins[j].clone();
        proof {
            assert(strs(r@.push(x)) =~= strs(r@).push(x@));
            assert(iv[j as int] == x@);
            assert(strs(r@.push(x)) =~= lv.take(from as int) + iv.take(j as int + 1));
        }
        r.push(x);
        j = j + 1;
    }
    assert(iv.take(ins@.len() as int) =~= iv);
    let mut k = to;
    while k < lines.len()
        invariant
            to <= k <= lines.len(),
            lv == strs(lines@),
            strs(r@) == lv.take(from as int) + iv + lv.subrange(to as int, k as int),
        decreases lines.len() - k,
    {
        let x = lines[k].clone();
        proof {
            assert(strs(r@.push(x)) =~= strs(r@).push(x@));
            assert(lv[k as int] == x@);
            assert(strs(r@.push(x)) =~= lv.take(from as int) + iv + lv.subrange(
                to as int,
                k as int + 1,
            ));
        }
        r.push(x);
        k = k + 1;
    }
    assert(lv.subrange(to as int, lines@.len() as int) =~= lv.skip(to as int));
    r
}

fn message_event(text: Vec<char>) -> (r: Vec<Event>)
    ensures
        events_view(r@) == message(text@),
{
    let mut r: Vec<Event> = Vec::new();
    r.push(Event::Message(string_of(&text)));
    assert(events_view(r@) =~= message(text@));
    r
}

fn input_mode_outcome() -> (r: ExecOutcome)
    ensures
        events_view(r.events@) == message(input_mode_message()),
        !r.should_quit,
{
    ExecOutcome {
        events: message_event(chars_of("enter input mode, finish with '.'")),
        should_quit: false,
    }
}

fn serialize_lines(lines: &Vec<String>) -> (r: String)
    ensures
        r@ == serialize(strs(lines@)),
{
    let mut nl: Vec<char> = Vec::new();
    nl.push('\n');
    assert(nl@ =~= seq!['\n']);
    let cl = crate::index::chars_of_strings(lines);
    let mut data = crate::text::join_with(&cl, &nl);
    if data.len() > 0 {
        data.push('\n');
    }
    string_of(&data)
}

pub(crate) fn split_content(content: &Vec<char>) -> (r: Vec<String>)
    ensures
        strs(r@) == split_lines(content@),
{
    if content.len() == 0 {
        let r: Vec<String> = Vec::new();
        assert(strs(r@) =~= Seq::<Seq<char>>::empty());
        return r;
    }
    let mut parts = split_set(content, CharSet::Only('\n'));
    proof {
        crate::text::lemma_split_len(content@, CharSet::Only('\n'));
    }
    if content[content.len() - 1] == '\n' {
        let ghost before = parts@;
        parts.pop();
        proof {
            assert(views(parts@) =~= views(before).drop_last());
        }
    }
    strings_of(&parts)
}

impl<S: Storage> Editor<S> {
    /// The storage the editor reads and writes through.
    pub closed spec fn storage_view(&self) -> S {
        self.storage
    }

    pub closed spec fn view(&self) -> EditorView {
        EditorView {
            lines: strs(self.lines@),
            current: self.current as nat,
            modified: self.modified,
            file_path: opt_string_view(self.file_path),
            pending: pending_view(self.pending),
        }
    }

    /// An editor with an empty buffer and no file.
    pub fn new(storage: S) -> (e: Self)
        ensures
            e.view() == (EditorView {
                lines: Seq::empty(),
                current: 0,
                modified: false,
                file_path: None,
                pending: None,
            }),
    {
        let e = Self {
            storage,
            lines: Vec::new(),
            current: 0,
            modified: false,
            file_path: None,
            pending: None,
        };
        assert(strs(e.lines@) =~= Seq::<Seq<char>>::empty());
        e
    }

    /// Whether lines typed now are collected rather than run as commands.
    pub fn is_in_input_mode(&self) -> (b: bool)
        ensures
            b == self.view().pending is Some,
    {
        self.pending.is_some()
    }

    fn resolve_addr(&self, addr: Addr) -> (r: Result<usize, EditorError>)
        ensures
            self.lines@.len() > 0 ==> r == Ok::<usize, EditorError>(addr_num(self.view(), addr) as usize)
                && addr_num(self.view(), addr) <= usize::MAX,
    {
        match addr {
            Addr::Current => {
                if self.current == 0 {
                    if self.lines.len() == 0 {
                        Err(EditorError::EmptyBuffer)
                    } else {
                        Ok(1)
                    }
                } else {
                    Ok(self.current)
                }
            },
            Addr::Last => {
                if self.lines.len() == 0 {
                    Err(EditorError::EmptyBuffer)
                } else {
                    Ok(self.lines.len())
                }
            },
            Addr::Absolute(n) => Ok(n),
        }
    }

    fn resolve_range(&self, range: Option<AddressRange>) -> (r: Result<(usize, usize), EditorError>)
        ensures
            match range_value(self.view(), range) {
                Ok((a, b)) => r matches Ok((x, y)) && x == a && y == b,
                Err(e) => r matches Err(err) && error_view(err) == e,
            },
    {
        if self.lines.len() == 0 {
            return Err(EditorError::EmptyBuffer);
        }
        let (start_addr, end_addr) = match range {
            Some(r) => (r.start, r.end),
            None => (Addr::Current, Addr::Current),
        };
        let start = match self.resolve_addr(start_addr) {
            Ok(v) => v,
            Err(e) => {
                return Err(e);
            },
        };
        let end = match self.resolve_addr(end_addr) {
            Ok(v) => v,
            Err(e) => {
                return Err(e);
            },
        };
        if start == 0 || end == 0 || start > self.lines.len() || end > self.lines.len() {
            return Err(EditorError::OutOfRange);
        }
        if start > end {
            return Err(EditorError::InvalidAddress(String::from_str("start > end")));
        }
        Ok((start, end))
    }

    fn resolve_single_for_insert(&self, range: Option<AddressRange>) -> (r: Result<
        usize,
        EditorError,
    >)
        ensures
            match insert_point(self.view(), range) {
                Ok(a) => r matches Ok(x) && x == a,
                Err(e) => r matches Err(err) && error_view(err) == e,
            },
    {
        if self.lines.len() == 0 {
            return Ok(0);
        }
        let addr = match range {
            Some(r) => {
                let a = match self.resolve_addr(r.start) {
                    Ok(v) => v,
                    Err(e) => {
                        return Err(e);
                    },
                };
                let b = match self.resolve_addr(r.end) {
                    Ok(v) => v,
                    Err(e) => {
                        return Err(e);
                    },
                };
                if a != b {
                    return Err(
                        EditorError::InvalidAddress(
                            String::from_str("insert/append takes single address"),
                        ),
                    );
                }
                r.end
            },
            None => Addr::Current,
        };
        let resolved = match self.resolve_addr(addr) {
            Ok(v) => v,
            Err(e) => {
                return Err(e);
            },
        };
        if resolved == 0 || resolved > self.lines.len() {
            return Err(EditorError::OutOfRange);
        }
        Ok(resolved)
    }

    fn insert_after(&mut self, after: usize, new_lines: &Vec<String>)
        requires
            after <= old(self).lines@.len(),
        ensures
            final(self).storage == old(self).storage,
            final(self).lines@.len() == old(self).lines@.len() + new_lines@.len(),
            strs(final(self).lines@) == strs(old(self).lines@).take(after as int) + strs(new_lines@)
                + strs(old(self).lines@).skip(after as int),
            final(self).current == if new_lines@.len() == 0 {
                after as nat
            } else {
                (after + new_lines@.len()) as nat
            },
            final(self).modified == old(self).modified,
            final(self).file_path == old(self).file_path,
            final(self).pending == old(self).pending,
    {
        let count = new_lines.len();
        let spliced = splice_lines(&self.lines, after, after, new_lines);
        self.lines = spliced;
        proof {
            assert(strs(self.lines@).len() == self.lines@.len());
            assert(strs(old(self).lines@).take(after as int).len() == after);
            assert(self.lines@.len() == old(self).lines@.len() + count);
        }
        let n = self.lines.len();
        assert(after + count <= n);
        self.current = if count == 0 {
            after
        } else {
            after + count
        };
    }

    fn replace_range(&mut self, start: usize, end: usize, new_lines: &Vec<String>) -> (r: Result<(), EditorError>)
        requires
            1 <= start <= end <= old(self).lines@.len(),
        ensures
            final(self).storage == old(self).storage,
            r is Ok,
            final(self).lines@.len() == old(self).lines@.len() - (end - start + 1) + new_lines@.len(),
            strs(final(self).lines@) == strs(old(self).lines@).take(start - 1) + strs(new_lines@)
                + strs(old(self).lines@).skip(end as int),
            final(self).current == if new_lines@.len() == 0 {
                if start <= final(self).lines@.len() {
                    start as nat
                } else {
                    final(self).lines@.len()
                }
            } else {
                (start + new_lines@.len() - 1) as nat
            },
            final(self).modified == old(self).modified,
            final(self).file_path == old(self).file_path,
            final(self).pending == old(self).pending,
    {
        let replacement_len = new_lines.len();
        let spliced = splice_lines(&self.lines, start - 1, end, new_lines);
        self.lines = spliced;
        proof {
            assert(strs(self.lines@).len() == self.lines@.len());
            assert(strs(old(self).lines@).take(start - 1).len() == start - 1);
            assert(self.lines@.len() == old(self).lines@.len() - (end - start + 1) + replacement_len);
        }
        if replacement_len == 0 {
            if start <= self.lines.len() {
                self.current = start;
            } else {
                self.current = self.lines.len();
            }
        } else {
            let n = self.lines.len();
            assert(start + replacement_len - 1 <= n);
            self.current = start - 1 + replacement_len;
        }
        Ok(())
    }

    fn delete_range(&mut self, start: usize, end: usize) -> (r: Result<(), EditorError>)
        requires
            1 <= start <= end <= old(self).lines@.len(),
        ensures
            final(self).storage == old(self).storage,
            r is Ok,
            final(self).lines@.len() == old(self).lines@.len() - (end - start + 1),
            strs(final(self).lines@) == strs(old(self).lines@).take(start - 1) + strs(
                old(self).lines@,
            ).skip(end as int),
            final(self).current == current_after_delete(final(self).lines@.len(), start as nat),
            final(self).modified == old(self).modified,
            final(self).file_path == old(self).file_path,
            final(self).pending == old(self).pending,
    {
        let none: Vec<String> = Vec::new();
        assert(strs(none@) =~= Seq::<Seq<char>>::empty());
        let spliced = splice_lines(&self.lines, start - 1, end, &none);
        self.lines = spliced;
        proof {
            assert(strs(self.lines@).len() == self.lines@.len());
            assert(strs(old(self).lines@).take(start - 1) + Seq::<Seq<char>>::empty()
                =~= strs(old(self).lines@).take(start - 1));
        }
        if self.lines.len() == 0 {
            self.current = 0;
        } else if start <= self.lines.len() {
            self.current = start;
        } else {
            self.current = self.lines.len();
        }
        Ok(())
    }
}


impl<S: Storage> Editor<S> {
    fn feed_input_line(&mut self, input: &str) -> (r: Result<ExecOutcome, EditorError>)
        requires
            wf_view(old(self).view()),
            old(self).view().pending is Some,
        ensures
            final(self).storage == old(self).storage,
            wf_view(final(self).view()),
            input_step(
                old(self).view(),
                old(self).view().pending->0,
                input@,
                final(self).view(),
                out_view(r),
            ),
    {
        let text = chars_of(input);
        let is_dot = text.len() == 1 && text[0] == '.';
        proof {
            if is_dot {
                assert(input@ =~= seq!['.']);
            }
            if input@ == seq!['.'] {
                assert(text@[0] == '.');
            }
        }
        let pending = self.pending.take();
        if is_dot {
            match pending {
                Some(PendingInput::Append { after, lines }) => {
                    let at = if after <= self.lines.len() {
                        after
                    } else {
                        self.lines.len()
                    };
                    self.insert_after(at, &lines);
                    proof {
                        if lines@.len() == 0 {
                            assert(at == after);
                        }
                    }
                },
                Some(PendingInput::Change { start, end, lines }) => {
                    let _ = self.replace_range(start, end, &lines);
                },
                None => {
                    return Err(
                        EditorError::InvalidCommand(String::from_str("expected pending input mode")),
                    );
                },
            }
            self.modified = true;
            return Ok(
                ExecOutcome { events: message_event(decimal_chars(self.current)), should_quit: false },
            );
        }
        match pending {
            Some(PendingInput::Append { after, mut lines }) => {
                let ghost before = lines@;
                lines.push(String::from_str(input));
                proof {
                    assert(strs(lines@) =~= strs(before).push(input@));
                }
                self.pending = Some(PendingInput::Append { after, lines });
            },
            Some(PendingInput::Change { start, end, mut lines }) => {
                let ghost before = lines@;
                lines.push(String::from_str(input));
                proof {
                    assert(strs(lines@) =~= strs(before).push(input@));
                }
                self.pending = Some(PendingInput::Change { start, end, lines });
            },
            None => {
                return Err(EditorError::InvalidCommand(String::from_str("unexpected input state")));
            },
        }
        let events: Vec<Event> = Vec::new();
        assert(events_view(events@) =~= Seq::<(bool, Seq<char>)>::empty());
        Ok(ExecOutcome { events, should_quit: false })
    }

    fn print_lines(&self, start: usize, end: usize, numbered: bool) -> (r: Vec<Event>)
        requires
            1 <= start <= end <= self.lines@.len(),
        ensures
            events_view(r@) == printed(strs(self.lines@), start as nat, end as nat, numbered),
    {
        let ghost want = printed(strs(self.lines@), start as nat, end as nat, numbered);
        let mut events: Vec<Event> = Vec::new();
        let count = end - start + 1;
        let mut k: usize = 0;
        while k < count
            invariant
                1 <= start <= end <= self.lines@.len(),
                count == end - start + 1,
                k <= count,
                want == printed(strs(self.lines@), start as nat, end as nat, numbered),
                events_view(events@) == want.take(k as int),
            decreases count - k,
        {
            let idx = start + k;
            let line = &self.lines[idx - 1];
            let text = if numbered {
                let mut t = decimal_chars(idx);
                t.push('\t');
                push_all(&mut t, &chars_of(line.as_str()));
                string_of(&t)
            } else {
                line.clone()
            };
            let ev = Event::Line(text);
            proof {
                assert(strs(self.lines@)[idx - 1] == line@);
                assert(want[k as int] == (true, text@));
                assert(events_view(events@.push(ev)) =~= events_view(events@).push((true, text@)));
                assert(want.take(k as int + 1) =~= want.take(k as int).push(want[k as int]));
            }
            events.push(ev);
            k = k + 1;
        }
        assert(want.take(end + 1 - start) =~= want);
        events
    }

    fn target_path(&mut self, path: Option<String>) -> (r: Option<String>)
        ensures
            final(self).lines == old(self).lines,
            final(self).current == old(self).current,
            final(self).modified == old(self).modified,
            final(self).pending == old(self).pending,
            final(self).storage == old(self).storage,
            opt_string_view(r) == match opt_string_view(path) {
                Some(p) => Some(p),
                None => opt_string_view(old(self).file_path),
            },
            final(self).file_path == match path {
                Some(_) => path,
                None => old(self).file_path,
            },
    {
        match path {
            Some(p) => {
                self.file_path = Some(p.clone());
                Some(p)
            },
            None => match &self.file_path {
                Some(p) => Some(p.clone()),
                None => None,
            },
        }
    }

    fn apply_command(&mut self, cmd: Command) -> (r: Result<ExecOutcome, EditorError>)
        requires
            wf_view(old(self).view()),
            old(self).view().pending is None,
        ensures
            wf_view(final(self).view()),
            command_step(old(self).view(), cmd_view(cmd), final(self).view(), out_view(r)),
            final(self).storage_view() == old(self).storage_view(),
            storage_step(old(self).storage_view(), old(self).view(), cmd_view(cmd), final(self).view(), out_view(r)),
    {
        match cmd {
            Command::Print { range, numbered } => {
                let (start, end) = self.resolve_range(range)?;
                let events = self.print_lines(start, end, numbered);
                self.current = end;
                Ok(ExecOutcome { events, should_quit: false })
            },
            Command::Delete { range } => {
                let (start, end) = self.resolve_range(range)?;
                let _ = self.delete_range(start, end);
                self.modified = true;
                Ok(
                    ExecOutcome {
                        events: message_event(decimal_chars(self.current)),
                        should_quit: false,
                    },
                )
            },
            Command::Append { at } => {
                let at = self.resolve_single_for_insert(at)?;
                let lines: Vec<String> = Vec::new();
                assert(strs(lines@) =~= Seq::<Seq<char>>::empty());
                self.pending = Some(PendingInput::Append { after: at, lines });
                Ok(input_mode_outcome())
            },
            Command::Insert { at } => {
                let target = self.resolve_single_for_insert(at)?;
                let after = if target == 0 {
                    0
                } else {
                    target - 1
                };
                let lines: Vec<String> = Vec::new();
                assert(strs(lines@) =~= Seq::<Seq<char>>::empty());
                self.pending = Some(PendingInput::Append { after, lines });
                Ok(input_mode_outcome())
            },
            Command::Change { range } => {
                let (start, end) = self.resolve_range(range)?;
                let lines: Vec<String> = Vec::new();
                assert(strs(lines@) =~= Seq::<Seq<char>>::empty());
                self.pending = Some(PendingInput::Change { start, end, lines });
                Ok(input_mode_outcome())
            },
            Command::Write { path } => {
                let path = match self.target_path(path) {
                    Some(p) => p,
                    None => {
                        return Err(EditorError::MissingFilename);
                    },
                };
                let data = serialize_lines(&self.lines);
                match self.storage.write_string(path.as_str(), data.as_str()) {
                    Err(e) => Err(EditorError::Io(e)),
                    Ok(()) => {
                        self.modified = false;
                        let n = data.as_str().len();
                        Ok(
                            ExecOutcome {
                                events: message_event(decimal_chars(n)),
                                should_quit: false,
                            },
                        )
                    },
                }
            },
            Command::Edit { path } => {
                if self.modified {
                    return Err(EditorError::UnsavedChanges);
                }
                let path = match self.target_path(path) {
                    Some(p) => p,
                    None => {
                        return Err(EditorError::MissingFilename);
                    },
                };
                match self.storage.read_to_string(path.as_str()) {
                    Err(e) => Err(EditorError::Io(e)),
                    Ok(content) => {
                        let lines = split_content(&chars_of(content.as_str()));
                        self.lines = lines;
                        self.current = self.lines.len();
                        self.modified = false;
                        proof {
                            assert(strs(self.lines@) == split_lines(content@));
                        }
                        Ok(
                            ExecOutcome {
                                events: message_event(decimal_chars(self.lines.len())),
                                should_quit: false,
                            },
                        )
                    },
                }
            },
            Command::Quit { force } => {
                if self.modified && !force {
                    return Err(EditorError::UnsavedChanges);
                }
                let events: Vec<Event> = Vec::new();
                assert(events_view(events@) =~= Seq::<(bool, Seq<char>)>::empty());
                Ok(ExecOutcome { events, should_quit: true })
            },
        }
    }

    /// Runs one line of input: a command, or a line for input mode.
    pub fn execute(&mut self, input: &str) -> (r: Result<ExecOutcome, EditorError>)
        requires
            wf_view(old(self).view()),
        ensures
            wf_view(final(self).view()),
            step(old(self).view(), input@, final(self).view(), out_view(r)),
            final(self).storage_view() == old(self).storage_view(),
            old(self).view().pending is None ==> match command_of(input@) {
                Ok(cmd) => storage_step(old(self).storage_view(), old(self).view(), cmd, final(self).view(), out_view(r)),
                Err(_) => true,
            },
    {
        if self.pending.is_some() {
            return self.feed_input_line(input);
        }
        let cmd = parse_command(input)?;
        self.apply_command(cmd)
    }
}

} // verus!
