//! Cutting notes in the notes pane and pasting them into a directory, and
//! deleting a note named by its title: what is decided between the moves
//! and deletions on disk, and what the status line then says.
use vstd::prelude::*;
use crate::text::{chars_of, decimal, decimal_chars, eq_chars, string_of, trim_whitespace, trim_ws};
use crate::index::{strs, NoteMeta};

verus! {

broadcast use vstd::string::group_string_axioms;

/// What the status line says after notes were cut.
pub open spec fn cut_message(n: nat) -> Seq<char> {
    if n == 0 {
        "no notes selected to cut"@
    } else {
        "cut "@ + decimal(n) + " note(s); select target dir and press p"@
    }
}

pub fn cut_status(count: usize) -> (r: String)
    ensures
        r@ == cut_message(count as nat),
{
    if count == 0 {
        return String::from_str("no notes selected to cut");
    }
    let mut s = String::from_str("cut ");
    s.append(string_of(&decimal_chars(count)).as_str());
    s.append(" note(s); select target dir and press p");
    s
}

/// Why a paste cannot start: nothing is cut, or the selected row names no
/// directory.
pub open spec fn paste_refusal(cut_len: nat, target: Option<Seq<char>>) -> Option<Seq<char>> {
    if cut_len == 0 {
        Some("cut buffer is empty"@)
    } else if target is None {
        Some("cannot resolve target directory"@)
    } else {
        None
    }
}

pub fn paste_blocker(cut_len: usize, target: Option<&str>) -> (r: Option<&'static str>)
    ensures
        match r {
            Some(m) => paste_refusal(cut_len as nat, opt_chars(target)) == Some(m@),
            None => paste_refusal(cut_len as nat, opt_chars(target)) is None,
        },
{
    if cut_len == 0 {
        Some("cut buffer is empty")
    } else if target.is_none() {
        Some("cannot resolve target directory")
    } else {
        None
    }
}

pub open spec fn opt_chars(o: Option<&str>) -> Option<Seq<char>> {
    match o {
        Some(s) => Some(s@),
        None => None,
    }
}

/// A paste under way: how many notes have moved, the cut paths that did not
/// move (they stay cut), and the last error a move gave.
#[derive(Debug)]
pub struct PasteProgress {
    pub moved: usize,
    pub failed: Vec<String>,
    pub last_error: Option<String>,
}

pub open spec fn progress_view(p: PasteProgress) -> (nat, Seq<Seq<char>>, Option<Seq<char>>) {
    (
        p.moved as nat,
        strs(p.failed@),
        match p.last_error {
            Some(e) => Some(e@),
            None => None,
        },
    )
}

/// The progress after the cut path `rel`: passed over when no note has that
/// path any more; else the move was tried, `error` is what it gave, and the
/// note counts as moved exactly when its path is gone from the notes after
/// the move.
pub open spec fn paste_stepped(
    p: (nat, Seq<Seq<char>>, Option<Seq<char>>),
    rel: Seq<char>,
    listed_before: bool,
    error: Option<Seq<char>>,
    listed_after: bool,
) -> (nat, Seq<Seq<char>>, Option<Seq<char>>) {
    if !listed_before {
        p
    } else {
        let last = if error is Some {
            error
        } else {
            p.2
        };
        if listed_after {
            (p.0, p.1.push(rel), last)
        } else {
            (p.0 + 1, p.1, last)
        }
    }
}

impl PasteProgress {
    pub fn new() -> (r: PasteProgress)
        ensures
            progress_view(r) == (0nat, Seq::<Seq<char>>::empty(), None::<Seq<char>>),
    {
        let r = PasteProgress { moved: 0, failed: Vec::new(), last_error: None };
        assert(strs(r.failed@) =~= Seq::<Seq<char>>::empty());
        r
    }

    /// Takes in what happened to the cut path `rel`.
    pub fn step(&mut self, rel: String, listed_before: bool, error: Option<String>, listed_after: bool)
        requires
            old(self).moved < usize::MAX,
        ensures
            progress_view(*final(self)) == paste_stepped(
                progress_view(*old(self)),
                rel@,
                listed_before,
                match error {
                    Some(e) => Some(e@),
                    None => None,
                },
                listed_after,
            ),
    {
        if !listed_before {
            return;
        }
        match error {
            Some(e) => {
                self.last_error = Some(e);
            },
            None => {},
        }
        if listed_after {
            let ghost before = self.failed@;
            self.failed.push(rel);
            assert(strs(self.failed@) =~= strs(before).push(rel@));
        } else {
            self.moved = self.moved + 1;
        }
    }
}

/// What the status line says when the paste is done: how many notes moved
/// where (`/` for the top directory), and how many did not, with the last
/// error when there was one.
pub open spec fn paste_message(target: Seq<char>, moved: nat, failed: nat, last_error: Option<Seq<char>>) -> Seq<char> {
    let t = if target.len() == 0 {
        "/"@
    } else {
        target
    };
    let head = "moved "@ + decimal(moved) + " note(s) to "@ + t;
    if failed == 0 {
        head
    } else {
        match last_error {
            Some(e) => head + ", "@ + decimal(failed) + " not moved: "@ + e,
            None => head + ", "@ + decimal(failed) + " not moved"@,
        }
    }
}

pub fn paste_status(target: &str, progress: &PasteProgress) -> (r: String)
    ensures
        r@ == paste_message(
            target@,
            progress.moved as nat,
            progress.failed@.len(),
            match progress.last_error {
                Some(e) => Some(e@),
                None => None,
            },
        ),
{
    let mut s = String::from_str("moved ");
    s.append(string_of(&decimal_chars(progress.moved)).as_str());
    s.append(" note(s) to ");
    if target.unicode_len() == 0 {
        s.append("/");
    } else {
        s.append(target);
    }
    if progress.failed.len() == 0 {
        return s;
    }
    s.append(", ");
    s.append(string_of(&decimal_chars(progress.failed.len())).as_str());
    match &progress.last_error {
        Some(e) => {
            s.append(" not moved: ");
            s.append(e.as_str());
        },
        None => {
            s.append(" not moved");
        },
    }
    s
}

/// `i` is the first note whose title is `t`.
pub open spec fn first_titled(notes: Seq<NoteMeta>, t: Seq<char>, i: int) -> bool {
    &&& 0 <= i < notes.len()
    &&& notes[i].title@ == t
    &&& forall|j: int| 0 <= j < i ==> notes[j].title@ != t
}

/// `:del <title>`: the first note titled as given (trimmed), or what the
/// status line says when none is.
pub fn note_by_title(notes: &Vec<NoteMeta>, title: &str) -> (r: Result<usize, String>)
    ensures
        match r {
            Ok(i) => first_titled(notes@, trim_ws(title@), i as int),
            Err(m) => (forall|j: int| 0 <= j < notes@.len() ==> notes@[j].title@ != trim_ws(title@)) && m@
                == "note with title '"@ + trim_ws(title@) + "' not found"@,
        },
{
    let t = trim_whitespace(&chars_of(title));
    let mut i: usize = 0;
    while i < notes.len()
        invariant
            i <= notes@.len(),
            t@ == trim_ws(title@),
            forall|j: int| 0 <= j < i ==> notes@[j].title@ != t@,
        decreases notes.len() - i,
    {
        if eq_chars(&chars_of(notes[i].title.as_str()), &t) {
            return Ok(i);
        }
        i = i + 1;
    }
    let mut m = String::from_str("note with title '");
    m.append(string_of(&t).as_str());
    m.append("' not found");
    Err(m)
}

} // verus!
