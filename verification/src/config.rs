//! The configuration file: `key = value` lines, `#` comments.
use vstd::prelude::*;
use crate::index::{path_join, path_join_chars};
use crate::context::{home_dir_path, ContextError};
use crate::text::{
    chars_of, eq_chars, find_char, find_exec, first_index, lines, lines_of, match_from,
    matches_at, slice_chars, starts_with, starts_with_exec, string_of, trim, trim_set,
    trim_whitespace, trim_ws, views, CharSet,
};

verus! {

broadcast use vstd::string::group_string_axioms;

/// The settings of a configuration file. `notes_dir` is as written, before
/// `~` and `env("..")` are resolved.
pub struct ConfigEntries {
    pub notes_dir: Option<String>,
    pub daily_notes_dir: String,
    pub autosave: bool,
}

/// The settings, with the notes directory resolved.
pub struct Config {
    pub notes_dir: String,
    pub daily_notes_dir: String,
    pub autosave: bool,
}

pub struct EntriesView {
    pub notes_dir: Option<Seq<char>>,
    pub daily_notes_dir: Seq<char>,
    pub autosave: bool,
}

pub open spec fn entries_view(e: ConfigEntries) -> EntriesView {
    EntriesView {
        notes_dir: match e.notes_dir {
            Some(s) => Some(s@),
            None => None,
        },
        daily_notes_dir: e.daily_notes_dir@,
        autosave: e.autosave,
    }
}

/// A value with surrounding whitespace and double quotes removed.
pub open spec fn plain_value(v: Seq<char>) -> Seq<char> {
    trim(trim_ws(v), CharSet::Only('"'))
}

/// The values of `autosave` that turn it on.
pub open spec fn truthy(v: Seq<char>) -> bool {
    v == "true"@ || v == "1"@ || v == "yes"@ || v == "on"@
}

/// The settings after the lines `ls[..k]`; a later line overrides an earlier
/// one.
pub open spec fn entries_upto(ls: Seq<Seq<char>>, k: int) -> EntriesView
    decreases k,
{
    if k <= 0 {
        EntriesView { notes_dir: None, daily_notes_dir: Seq::empty(), autosave: true }
    } else {
        let prev = entries_upto(ls, k - 1);
        let line = trim_ws(ls[k - 1]);
        if line.len() == 0 || line[0] == '#' || !line.contains('=') {
            prev
        } else {
            let eq = choose|i: int| first_index(line, '=', i);
            let key = trim_ws(line.take(eq));
            let value = line.skip(eq + 1);
            if key == "notes_dir"@ {
                EntriesView { notes_dir: Some(plain_value(value)), ..prev }
            } else if key == "daily_notes_dir"@ {
                EntriesView { daily_notes_dir: plain_value(value), ..prev }
            } else if key == "autosave"@ {
                EntriesView { autosave: truthy(trim_ws(value)), ..prev }
            } else {
                prev
            }
        }
    }
}

pub open spec fn config_entries(content: Seq<char>) -> EntriesView {
    let ls = lines(content);
    entries_upto(ls, ls.len() as int)
}

fn literal_eq(v: &Vec<char>, lit: &str) -> (b: bool)
    ensures
        b == (v@ == lit@),
{
    eq_chars(v, &chars_of(lit))
}

/// Reads the settings of a configuration file's text.
pub fn parse_config_entries(content: &str) -> (r: ConfigEntries)
    ensures
        entries_view(r) == config_entries(content@),
{
    let ls = lines_of(&chars_of(content));
    let mut notes_dir: Option<String> = None;
    let mut daily: String = String::new();
    let mut autosave = true;
    let mut k: usize = 0;
    while k < ls.len()
        invariant
            k <= ls.len(),
            entries_view(ConfigEntries { notes_dir, daily_notes_dir: daily, autosave })
                == entries_upto(views(ls@), k as int),
        decreases ls.len() - k,
    {
        let line = trim_whitespace(&ls[k]);
        assert(views(ls@)[k as int] == ls@[k as int]@);
        if line.len() > 0 && line[0] != '#' {
            match find_char(&line, '=') {
                Some(eq) => {
                    proof {
                        assert(line@.contains('='));
                        assert(first_index(line@, '=', eq as int));
                        assert forall|i: int| first_index(line@, '=', i) implies i == eq by {
                            if i < eq {
                                assert(line@[i] != '=');
                            } else if i > eq {
                                assert(line@[eq as int] != '=');
                            }
                        }
                    }
                    let key = trim_whitespace(&slice_chars(&line, 0, eq));
                    let value = slice_chars(&line, eq + 1, line.len());
                    proof {
                        assert(line@.take(eq as int) =~= line@.subrange(0, eq as int));
                        assert(line@.skip(eq + 1) =~= value@);
                    }
                    if literal_eq(&key, "notes_dir") {
                        let v = trim_set(&trim_whitespace(&value), CharSet::Only('"'));
                        notes_dir = Some(string_of(&v));
                    } else if literal_eq(&key, "daily_notes_dir") {
                        let v = trim_set(&trim_whitespace(&value), CharSet::Only('"'));
                        daily = string_of(&v);
                    } else if literal_eq(&key, "autosave") {
                        let raw = trim_whitespace(&value);
                        autosave = literal_eq(&raw, "true") || literal_eq(&raw, "1") || literal_eq(
                            &raw,
                            "yes",
                        ) || literal_eq(&raw, "on");
                    }
                },
                None => {},
            }
        }
        k = k + 1;
    }
    ConfigEntries { notes_dir, daily_notes_dir: daily, autosave }
}

// ---------------------------------------------------------------------------
// Paths in the configuration
// ---------------------------------------------------------------------------

pub open spec fn env_open() -> Seq<char> {
    "env(\""@
}

pub open spec fn env_close() -> Seq<char> {
    seq!['"', ')']
}

/// `env("VAR")/rest`: the variable and what follows it (a leading `/` or `\`
/// removed, `None` when there is neither).
pub open spec fn env_path(path: Seq<char>) -> Option<(Seq<char>, Option<Seq<char>>)> {
    if !starts_with(path, env_open()) {
        None
    } else {
        let rest = path.skip(env_open().len() as int);
        match match_from(rest, env_close(), 0) {
            None => None,
            Some(at) => {
                let var = rest.take(at);
                let tail = rest.skip(at + 2);
                if var.len() == 0 {
                    None
                } else if tail.len() > 0 && (tail[0] == '/' || tail[0] == '\\') {
                    Some((var, Some(tail.drop_first())))
                } else {
                    Some((var, None))
                }
            },
        }
    }
}

pub open spec fn env_path_view(r: Option<(String, Option<String>)>) -> Option<
    (Seq<char>, Option<Seq<char>>),
> {
    match r {
        None => None,
        Some((v, t)) => Some(
            (
                v@,
                match t {
                    Some(s) => Some(s@),
                    None => None,
                },
            ),
        ),
    }
}

pub fn parse_env_path(path: &str) -> (r: Option<(String, Option<String>)>)
    ensures
        env_path_view(r) == env_path(path@),
{
    let p = chars_of(path);
    let open = chars_of("env(\"");
    if !starts_with_exec(&p, &open) {
        return None;
    }
    let rest = slice_chars(&p, open.len(), p.len());
    assert(rest@ =~= p@.skip(env_open().len() as int));
    let mut close: Vec<char> = Vec::new();
    close.push('"');
    close.push(')');
    assert(close@ =~= env_close());
    let at = match find_exec(&rest, &close, 0) {
        None => {
            return None;
        },
        Some(a) => a,
    };
    proof {
        crate::text::lemma_match_from_bound(rest@, env_close(), 0, at as int);
    }
    let var = slice_chars(&rest, 0, at);
    let tail = slice_chars(&rest, at + 2, rest.len());
    assert(var@ =~= rest@.take(at as int));
    assert(tail@ =~= rest@.skip(at + 2));
    if var.len() == 0 {
        return None;
    }
    if tail.len() > 0 && (tail[0] == '/' || tail[0] == '\\') {
        let t = slice_chars(&tail, 1, tail.len());
        assert(t@ =~= tail@.drop_first());
        Some((string_of(&var), Some(string_of(&t))))
    } else {
        Some((string_of(&var), None))
    }
}

/// `base`, joined with `rest` when that is present and not empty.
pub open spec fn with_rest(base: Seq<char>, rest: Option<Seq<char>>) -> Seq<char> {
    match rest {
        Some(s) if s.len() > 0 => path_join(base, s),
        _ => base,
    }
}

pub fn join_rest(base: &str, rest: Option<&str>) -> (r: String)
    ensures
        r@ == with_rest(base@, crate::index::opt_view(rest)),
{
    match rest {
        Some(suffix) => {
            if suffix.is_empty() {
                String::from_str(base)
            } else {
                string_of(&path_join_chars(&chars_of(base), &chars_of(suffix)))
            }
        },
        None => String::from_str(base),
    }
}

pub open spec fn opt_str_view(o: Option<String>) -> Option<Seq<char>> {
    match o {
        Some(s) => Some(s@),
        None => None,
    }
}

/// Where a configured path points: `env("VAR")/rest` under the value of
/// `VAR` (`env_value`, when set), `~`, `~/rest` and `~\rest` under `home`
/// (when known), anything else as written.
pub open spec fn resolved_path(path: Seq<char>, env_value: Option<Seq<char>>, home: Option<Seq<char>>) -> Seq<char> {
    match (env_path(path), env_value) {
        (Some((_, rest)), Some(value)) => with_rest(value, rest),
        _ => match home {
            Some(h) => if path == seq!['~'] {
                h
            } else if starts_with(path, seq!['~', '/']) || starts_with(path, seq!['~', '\\']) {
                path_join(h, path.skip(2))
            } else {
                path
            },
            None => path,
        },
    }
}

/// Resolves a configured path; `env_value` is the value of the variable that
/// `parse_env_path` names, and `home` the home directory.
pub fn resolve_home(path: &str, env_value: Option<String>, home: Option<String>) -> (r: String)
    ensures
        r@ == resolved_path(path@, opt_str_view(env_value), opt_str_view(home)),
{
    match parse_env_path(path) {
        Some((_var, rest)) => match env_value {
            Some(value) => {
                return match rest {
                    Some(r) => join_rest(value.as_str(), Some(r.as_str())),
                    None => join_rest(value.as_str(), None),
                };
            },
            None => {},
        },
        None => {},
    }
    let p = chars_of(path);
    match home {
        Some(h) => {
            if p.len() == 1 && p[0] == '~' {
                assert(p@ =~= seq!['~']);
                return h;
            }
            proof {
                if p@ == seq!['~'] {
                    assert(p@[0] == '~');
                }
            }
            if p.len() >= 2 && p[0] == '~' && (p[1] == '/' || p[1] == '\\') {
                assert(p@.take(2) =~= seq!['~', p@[1]]);
                let rest = slice_chars(&p, 2, p.len());
                assert(rest@ =~= p@.skip(2));
                return string_of(&path_join_chars(&chars_of(h.as_str()), &rest));
            }
            proof {
                if starts_with(p@, seq!['~', '/']) || starts_with(p@, seq!['~', '\\']) {
                    assert(p@.take(2)[0] == p@[0]);
                    assert(p@.take(2)[1] == p@[1]);
                }
            }
            String::from_str(path)
        },
        None => String::from_str(path),
    }
}

/// The settings with `notes_dir` resolved against `env_value` (the value of
/// the variable that `notes_dir` names, if any) and `home`.
pub fn from_entries_with(entries: ConfigEntries, env_value: Option<String>, home: Option<String>) -> (r: Result<Config, ContextError>)
    ensures
        r is Ok <==> entries.notes_dir is Some,
        r is Err ==> r == Err::<Config, ContextError>(ContextError::MissingNotesDir),
        r is Ok ==> {
            &&& r->Ok_0.notes_dir@ == resolved_path(entries.notes_dir->Some_0@, opt_str_view(env_value), opt_str_view(home))
            &&& r->Ok_0.daily_notes_dir@ == entries.daily_notes_dir@
            &&& r->Ok_0.autosave == entries.autosave
        },
{
    match entries.notes_dir {
        Some(nd) => {
            let notes_dir = resolve_home(nd.as_str(), env_value, home);
            Ok(Config { notes_dir, daily_notes_dir: entries.daily_notes_dir, autosave: entries.autosave })
        },
        None => Err(ContextError::MissingNotesDir),
    }
}

/// The settings with `notes_dir` resolved against `env_value` and this
/// user's home directory.
pub fn from_entries(entries: ConfigEntries, env_value: Option<String>) -> (r: Result<Config, ContextError>)
    ensures
        r is Ok <==> entries.notes_dir is Some,
        r is Err ==> r == Err::<Config, ContextError>(ContextError::MissingNotesDir),
        r is Ok ==> {
            &&& exists|home: Option<Seq<char>>| r->Ok_0.notes_dir@ == resolved_path(entries.notes_dir->Some_0@, opt_str_view(env_value), home)
            &&& r->Ok_0.daily_notes_dir@ == entries.daily_notes_dir@
            &&& r->Ok_0.autosave == entries.autosave
        },
{
    let home = home_dir_path();
    let ghost h = opt_str_view(home);
    let ghost nd = entries.notes_dir;
    let ghost ev = opt_str_view(env_value);
    let r = from_entries_with(entries, env_value, home);
    proof {
        if r is Ok {
            assert(r->Ok_0.notes_dir@ == resolved_path(nd->Some_0@, ev, h));
        }
    }
    r
}

} // verus!
