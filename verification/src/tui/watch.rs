//! Which changes the file watcher reports make the browser read a note
//! again: changes to markdown files under the notes directory, except the
//! echo of the browser's own autosave.
use vstd::prelude::*;
use crate::text::chars_of;
use crate::tui::paths::{comp_equal, comp_view, comps, comps_equal, comps_view, path_components, Comp, PathComp};

verus! {

broadcast use vstd::string::group_string_axioms;

/// `Path::file_name`: the last component, when it is a name.
pub open spec fn file_name_of(cs: Seq<Comp>) -> Option<Seq<char>> {
    if cs.len() > 0 && cs.last() is Normal {
        Some(cs.last()->Normal_0)
    } else {
        None
    }
}

/// `k` is the place of the last `.` in `name`.
pub open spec fn last_dot(name: Seq<char>, k: int) -> bool {
    &&& 0 <= k < name.len()
    &&& name[k] == '.'
    &&& forall|j: int| k < j < name.len() ==> name[j] != '.'
}

/// `Path::extension` of a file name: what follows its last `.`, unless it
/// has none or its only `.` starts it.
pub open spec fn extension_of(name: Seq<char>) -> Option<Seq<char>> {
    if exists|k: int| last_dot(name, k) && k > 0 {
        let k = choose|k: int| last_dot(name, k) && k > 0;
        Some(name.skip(k + 1))
    } else {
        None
    }
}

/// `Path::strip_prefix`: the components after those of `base`, when `base`'s
/// components start `path`'s.
pub open spec fn stripped(path: Seq<Comp>, base: Seq<Comp>) -> Option<Seq<Comp>> {
    if base.len() <= path.len() && path.take(base.len() as int) == base {
        Some(path.skip(base.len() as int))
    } else {
        None
    }
}

/// The note a change reported at `abs` makes the browser read again: the
/// path relative to the notes directory `root` of a file with extension
/// `md` under it, unless it is the note the browser itself saved last, less
/// than 1.2 seconds ago (`since_autosave_ms` is the time since then).
pub open spec fn note_to_reread(
    abs: Seq<char>,
    root: Seq<char>,
    last_autosaved: Option<Seq<char>>,
    since_autosave_ms: Option<u64>,
) -> Option<Seq<Comp>> {
    let md = match file_name_of(comps(abs)) {
        Some(n) => extension_of(n) == Some(seq!['m', 'd']),
        None => false,
    };
    if !md {
        None
    } else {
        match stripped(comps(abs), comps(root)) {
            None => None,
            Some(rel) => if ignored_echo(rel, last_autosaved, since_autosave_ms) {
                None
            } else {
                Some(rel)
            },
        }
    }
}

/// A change to the note the browser autosaved less than 1.2 seconds ago is
/// the echo of that save.
pub open spec fn ignored_echo(rel: Seq<Comp>, last_autosaved: Option<Seq<char>>, since_autosave_ms: Option<u64>) -> bool {
    match (last_autosaved, since_autosave_ms) {
        (Some(last), Some(ms)) => rel == comps(last) && ms < 1200,
        _ => false,
    }
}

fn has_md_extension(name: &Vec<char>) -> (r: bool)
    ensures
        r == (extension_of(name@) == Some(seq!['m', 'd'])),
{
    let n = name.len();
    let mut k = n;
    while k > 0 && name[k - 1] != '.'
        invariant
            k <= n == name@.len(),
            forall|j: int| k <= j < n ==> name@[j] != '.',
        decreases k,
    {
        k = k - 1;
    }
    if k <= 1 {
        proof {
            assert forall|d: int| !(last_dot(name@, d) && d > 0) by {
                if last_dot(name@, d) && d > 0 {
                    if k == 1 {
                        if d > 0 && name@[0] == '.' {
                            assert(name@[d] == '.');
                        }
                    }
                }
            }
        }
        return false;
    }
    let dot = k - 1;
    assert(last_dot(name@, dot as int) && dot > 0);
    proof {
        let c = choose|d: int| last_dot(name@, d) && d > 0;
        if c < dot {
            assert(name@[dot as int] == '.');
        } else if c > dot {
            assert(name@[c] == '.');
        }
        assert(c == dot);
        assert(extension_of(name@) == Some(name@.skip(k as int)));
    }
    let r = n - k == 2 && name[k] == 'm' && name[k + 1] == 'd';
    proof {
        let ext = name@.skip(k as int);
        if r {
            assert(ext =~= seq!['m', 'd']);
        }
        if ext == seq!['m', 'd'] {
            assert(ext[0] == 'm' && ext[1] == 'd');
            assert(ext.len() == 2);
        }
        assert(r == (ext == seq!['m', 'd']));
        assert(extension_of(name@) == Some(ext));
    }
    r
}

/// The components of `path` after those of `base`, when `base`'s start it.
fn strip_components(path: &Vec<PathComp>, base: &Vec<PathComp>) -> (r: Option<Vec<PathComp>>)
    ensures
        match r {
            Some(rest) => stripped(comps_view(path@), comps_view(base@)) == Some(comps_view(rest@)),
            None => stripped(comps_view(path@), comps_view(base@)) is None,
        },
{
    let ghost pv = comps_view(path@);
    let ghost bv = comps_view(base@);
    if base.len() > path.len() {
        return None;
    }
    let mut i: usize = 0;
    while i < base.len()
        invariant
            base@.len() <= path@.len(),
            i <= base@.len(),
            pv == comps_view(path@),
            bv == comps_view(base@),
            forall|j: int| 0 <= j < i ==> pv[j] == bv[j],
        decreases base.len() - i,
    {
        if !comp_equal(&path[i], &base[i]) {
            proof {
                assert(pv.take(bv.len() as int)[i as int] != bv[i as int]);
            }
            return None;
        }
        i = i + 1;
    }
    assert(pv.take(bv.len() as int) =~= bv);
    let mut rest: Vec<PathComp> = Vec::new();
    let mut j = base.len();
    while j < path.len()
        invariant
            base@.len() <= j <= path@.len(),
            pv == comps_view(path@),
            comps_view(rest@) =~= pv.subrange(base@.len() as int, j as int),
        decreases path.len() - j,
    {
        let c = match &path[j] {
            PathComp::Root => PathComp::Root,
            PathComp::Cur => PathComp::Cur,
            PathComp::Parent => PathComp::Parent,
            PathComp::Normal(v) => PathComp::Normal(v.clone()),
        };
        assert(comp_view(c) == pv[j as int]);
        let ghost before = rest@;
        rest.push(c);
        assert(comps_view(rest@) =~= comps_view(before).push(comp_view(c)));
        j = j + 1;
    }
    Some(rest)
}

/// The note to read again for a change the watcher reports at `abs`, as the
/// components of its path under `root`.
pub fn watched_note(
    abs: &str,
    root: &str,
    last_autosaved: Option<&str>,
    since_autosave_ms: Option<u64>,
) -> (r: Option<Vec<PathComp>>)
    ensures
        match r {
            Some(rel) => note_to_reread(
                abs@,
                root@,
                match last_autosaved {
                    Some(l) => Some(l@),
                    None => None,
                },
                since_autosave_ms,
            ) == Some(comps_view(rel@)),
            None => note_to_reread(
                abs@,
                root@,
                match last_autosaved {
                    Some(l) => Some(l@),
                    None => None,
                },
                since_autosave_ms,
            ) is None,
        },
{
    let pc = path_components(abs);
    let n = pc.len();
    let md = if n > 0 {
        match &pc[n - 1] {
            PathComp::Normal(name) => has_md_extension(name),
            _ => false,
        }
    } else {
        false
    };
    proof {
        let cv = comps_view(pc@);
        if n > 0 {
            assert(cv.last() == comp_view(pc@[n - 1]));
        }
    }
    if !md {
        return None;
    }
    let rel = match strip_components(&pc, &path_components(root)) {
        Some(rel) => rel,
        None => {
            return None;
        },
    };
    let echo = match (last_autosaved, since_autosave_ms) {
        (Some(last), Some(ms)) => ms < 1200 && comps_equal(&rel, &path_components(last)),
        _ => false,
    };
    if echo {
        None
    } else {
        Some(rel)
    }
}

} // verus!
