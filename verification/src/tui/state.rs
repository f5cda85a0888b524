//! The browser's state file, which names the note open last so that the
//! next start opens it again: one `key = "value"` line written, and the
//! first line naming a note read back.
use vstd::prelude::*;
use crate::text::{
    before_char, before_char_exec, chars_of, eq_chars, find_char, lines, lines_of, set_has, slice_chars, split,
    starts_with, string_of, strip_cr, trim, trim_set, trim_whitespace, trim_ws, views, CharSet,
};
use crate::index::{key_of, note_rel_path, normalize_note_path, opt_view, path_join, path_join_chars, path_key};
use crate::tui::blocks::{escape_quotes, escape_quotes_exec};

verus! {

broadcast use vstd::string::group_string_axioms;

/// The state file for the open note `rel`: its path, quotes escaped, as the
/// value of `last_opened_path`.
pub open spec fn state_text(rel: Seq<char>) -> Seq<char> {
    "last_opened_path = \""@ + escape_quotes(key_of(rel)) + "\"\n"@
}

pub fn last_opened_state(rel: &str) -> (r: String)
    ensures
        r@ == state_text(rel@),
{
    let esc = string_of(&escape_quotes_exec(&chars_of(path_key(rel).as_str())));
    let mut s = String::from_str("last_opened_path = \"");
    s.append(esc.as_str());
    s.append("\"\n");
    s
}

/// The note a line of the state file names: a `last_opened_path` or
/// `last_opened_slug` line (blank lines and `#` comments name none), its
/// value trimmed of blanks and quotes and normalised; none when that leaves
/// nothing.
pub open spec fn state_line_path(line: Seq<char>) -> Option<Seq<char>> {
    let t = trim_ws(line);
    if t.len() == 0 || starts_with(t, "#"@) || !t.contains('=') {
        None
    } else {
        let before = before_char(t, '=');
        let key = trim_ws(before);
        let value = t.skip(before.len() as int + 1);
        if key == "last_opened_path"@ || key == "last_opened_slug"@ {
            let raw = trim(trim_ws(value), CharSet::Only('"'));
            if raw.len() == 0 || note_rel_path(raw).len() == 0 {
                None
            } else {
                Some(note_rel_path(raw))
            }
        } else {
            None
        }
    }
}

/// The note the first line that names one names.
pub open spec fn first_state_path(ls: Seq<Seq<char>>) -> Option<Seq<char>>
    decreases ls.len(),
{
    if ls.len() == 0 {
        None
    } else {
        match state_line_path(ls[0]) {
            Some(p) => Some(p),
            None => first_state_path(ls.drop_first()),
        }
    }
}

fn line_path(line: &Vec<char>) -> (r: Option<String>)
    ensures
        match r {
            Some(p) => state_line_path(line@) == Some(p@),
            None => state_line_path(line@) is None,
        },
{
    let t = trim_whitespace(line);
    if t.len() == 0 || t[0] == '#' {
        proof {
            reveal_strlit("#");
            if t@.len() > 0 && t@[0] == '#' {
                assert(t@.take(1) =~= "#"@);
            }
        }
        return None;
    }
    proof {
        reveal_strlit("#");
        if starts_with(t@, "#"@) {
            assert(t@.take(1)[0] == '#');
        }
    }
    let eq = match find_char(&t, '=') {
        Some(i) => i,
        None => {
            return None;
        },
    };
    assert(t@.contains('='));
    let before = slice_chars(&t, 0, eq);
    proof {
        crate::text::lemma_before_char(t@, '=', eq as int);
    }
    let key = trim_whitespace(&before);
    let n = t.len();
    let value = slice_chars(&t, eq + 1, n);
    assert(value@ =~= t@.skip(before@.len() as int + 1));
    if !(eq_chars(&key, &chars_of("last_opened_path")) || eq_chars(&key, &chars_of("last_opened_slug"))) {
        return None;
    }
    let raw = trim_set(&trim_whitespace(&value), CharSet::Only('"'));
    if raw.len() == 0 {
        return None;
    }
    let rel = normalize_note_path(string_of(&raw).as_str());
    if rel.as_str().unicode_len() == 0 {
        None
    } else {
        Some(rel)
    }
}

/// The note the state file names, if any.
pub fn load_last_opened_path(content: &str) -> (r: Option<String>)
    ensures
        match r {
            Some(p) => first_state_path(lines(content@)) == Some(p@),
            None => first_state_path(lines(content@)) is None,
        },
{
    let ls = lines_of(&chars_of(content));
    let ghost lv = views(ls@);
    let mut i: usize = 0;
    assert(lv.skip(0) =~= lv);
    while i < ls.len()
        invariant
            i <= ls@.len(),
            lv == views(ls@),
            lv == lines(content@),
            first_state_path(lv) == first_state_path(lv.skip(i as int)),
        decreases ls.len() - i,
    {
        assert(lv.skip(i as int)[0] == ls@[i as int]@);
        match line_path(&ls[i]) {
            Some(p) => {
                return Some(p);
            },
            None => {},
        }
        assert(lv.skip(i as int).drop_first() =~= lv.skip(i as int + 1));
        i = i + 1;
    }
    None
}

/// Writing the state for a note and reading it back names that note again
/// (normalised), when its path has no quote, no line break and no blank at
/// either end.
pub proof fn lemma_state_round_trip(rel: Seq<char>)
    requires
        ({
            let k = key_of(rel);
            &&& k.len() > 0
            &&& !k.contains('"')
            &&& !k.contains('\n')
            &&& !set_has(CharSet::Whitespace, k[0])
            &&& !set_has(CharSet::Whitespace, k.last())
        }),
    ensures
        first_state_path(lines(state_text(rel))) == if note_rel_path(key_of(rel)).len() > 0 {
            Some(note_rel_path(key_of(rel)))
        } else {
            None::<Seq<char>>
        },
{
    let k = key_of(rel);
    reveal_strlit("last_opened_path = \"");
    reveal_strlit("\"\n");
    reveal_strlit("last_opened_path");
    reveal_strlit("last_opened_slug");
    reveal_strlit("last_opened_path ");
    reveal_strlit("#");
    lemma_escape_plain(k);
    let head = "last_opened_path = \""@;
    let line = head + k + seq!['"'];
    assert(state_text(rel) =~= line.push('\n'));
    assert(!line.contains('\n')) by {
        if line.contains('\n') {
            let j = choose|j: int| 0 <= j < line.len() && line[j] == '\n';
            if j >= head.len() && j < head.len() + k.len() {
                assert(k[j - head.len()] == '\n');
            }
        }
    }
    crate::editor::laws::lemma_split_append_plain(Seq::<char>::empty(), line);
    assert(Seq::<char>::empty() + line =~= line);
    assert(split(line, CharSet::Only('\n')) =~= seq![line]);
    assert(line.push('\n').drop_last() =~= line);
    let ps = split(line.push('\n'), CharSet::Only('\n'));
    assert(ps == seq![line].push(Seq::<char>::empty()));
    assert(strip_cr(line) == line);
    assert(lines(state_text(rel)) =~= seq![line]);
    assert(trim_ws(line) == line) by {
        crate::text::lemma_lead_exact(line, CharSet::Whitespace, 0);
        crate::text::lemma_trail_exact(line, CharSet::Whitespace, 0);
        assert(line.skip(0) =~= line);
        assert(line.take(line.len() as int) =~= line);
    }
    let eq = 17int;
    assert(line[eq] == '=');
    assert(line.contains('='));
    assert(forall|j: int| 0 <= j < eq ==> line[j] == head[j]);
    crate::text::lemma_before_char(line, '=', eq);
    let before = before_char(line, '=');
    assert(before =~= line.take(eq));
    assert(before =~= "last_opened_path "@);
    assert(trim_ws(before) =~= "last_opened_path"@) by {
        crate::text::lemma_lead_exact(before, CharSet::Whitespace, 0);
        assert(before.skip(0) =~= before);
        crate::text::lemma_trail_exact(before, CharSet::Whitespace, 1);
    }
    let value = line.skip(before.len() as int + 1);
    let quoted = seq!['"'] + k + seq!['"'];
    assert(value =~= seq![' '] + quoted);
    assert(trim_ws(value) =~= quoted) by {
        crate::text::lemma_lead_exact(value, CharSet::Whitespace, 1);
        crate::text::lemma_trail_exact(value.skip(1), CharSet::Whitespace, 0);
    }
    assert(trim(quoted, CharSet::Only('"')) =~= k) by {
        crate::text::lemma_lead_exact(quoted, CharSet::Only('"'), 1);
        let s1 = quoted.skip(1);
        assert(s1 =~= k + seq!['"']);
        crate::text::lemma_trail_exact(s1, CharSet::Only('"'), 1);
    }
    assert(!starts_with(line, "#"@));
    assert(seq![line][0] == line);
    assert(seq![line].drop_first() =~= Seq::<Seq<char>>::empty());
    assert(first_state_path(seq![line]) == state_line_path(line)) by {
        reveal_with_fuel(first_state_path, 2);
    }
}

proof fn lemma_escape_plain(s: Seq<char>)
    requires
        !s.contains('"'),
    ensures
        escape_quotes(s) == s,
    decreases s.len(),
{
    if s.len() > 0 {
        assert(!s.drop_last().contains('"')) by {
            if s.drop_last().contains('"') {
                let j = choose|j: int| 0 <= j < s.drop_last().len() && s.drop_last()[j] == '"';
                assert(s[j] == '"');
            }
        }
        lemma_escape_plain(s.drop_last());
        assert(s.last() != '"') by {
            assert(s[s.len() - 1] == s.last());
        }
        assert(s.drop_last().push(s.last()) =~= s);
    }
}

// ---------------------------------------------------------------------------
// Where the state file is
// ---------------------------------------------------------------------------

/// What `Path::parent` gives for a path, as text: none for a root or an
/// empty path.
pub uninterp spec fn path_parent(p: Seq<char>) -> Option<Seq<char>>;

/// `std::path::Path::parent`; its result is named `path_parent`.
#[verifier::external_body]
fn parent_of_path(p: &str) -> (r: Option<String>)
    ensures
        match r {
            Some(d) => path_parent(p@) == Some(d@),
            None => path_parent(p@) is None,
        },
{
    std::path::Path::new(p).parent().map(|d| d.to_string_lossy().into_owned())
}

pub open spec fn state_file_name() -> Seq<char> {
    "tui_state.toml"@
}

/// The state file beside a configuration file whose directory is `parent`:
/// `tui_state.toml` in that directory, or bare when there is none.
pub open spec fn state_path_in(parent: Option<Seq<char>>) -> Seq<char> {
    match parent {
        Some(d) => path_join(d, state_file_name()),
        None => state_file_name(),
    }
}

/// The state file for the configuration file's directory `parent`.
pub fn state_path_for_parent(parent: Option<&str>) -> (r: String)
    ensures
        r@ == state_path_in(opt_view(parent)),
{
    let name = "tui_state.toml";
    proof {
        reveal_strlit("tui_state.toml");
    }
    match parent {
        Some(d) => string_of(&path_join_chars(&chars_of(d), &chars_of(name))),
        None => String::from_str(name),
    }
}

/// The browser's state file: `tui_state.toml` beside the configuration
/// file `config_path`.
pub fn state_file_path(config_path: &str) -> (r: String)
    ensures
        r@ == state_path_in(path_parent(config_path@)),
{
    match parent_of_path(config_path) {
        Some(d) => state_path_for_parent(Some(d.as_str())),
        None => state_path_for_parent(None),
    }
}

} // verus!
