//! Plugin markers: `_$$name$$_` spans in a note, each replaced by what the
//! plugin of that name prints.
use vstd::prelude::*;
use crate::index::{path_join, path_join_chars};
use crate::tui::chars::{
    byte_index, byte_len, char_index_of_byte, char_to_byte_idx, indent_chars, lemma_boundary_of_char, on_boundary,
};
use crate::text::{
    chars_of, find_exec, is_ascii_alphanumeric, is_alnum, match_from, push_all, slice_chars,
    string_of, trim_whitespace, trim_ws,
};

verus! {

broadcast use vstd::string::group_string_axioms;

/// What applying the plugins to a note did.
pub struct PluginRunReport {
    pub replacements: usize,
    pub errors: Vec<String>,
}

/// A marker: the bytes `start..end` of the note, naming plugin `name`.
#[derive(Debug, Clone)]
pub struct Marker {
    pub start: usize,
    pub end: usize,
    pub name: String,
}

pub struct MarkerView {
    pub start: nat,
    pub end: nat,
    pub name: Seq<char>,
}

pub open spec fn marker_view(m: Marker) -> MarkerView {
    MarkerView { start: m.start as nat, end: m.end as nat, name: m.name@ }
}

pub open spec fn markers_view(ms: Seq<Marker>) -> Seq<MarkerView> {
    ms.map_values(|m: Marker| marker_view(m))
}

/// Markers found at character positions, placed at the byte offsets of
/// those positions.
pub open spec fn byte_markers(s: Seq<char>, ms: Seq<MarkerView>) -> Seq<MarkerView> {
    ms.map_values(
        |m: MarkerView|
            MarkerView {
                start: byte_len(s.take(m.start as int)),
                end: byte_len(s.take(m.end as int)),
                name: m.name,
            },
    )
}

/// Markers at byte offsets, placed at the character positions those
/// offsets start.
pub open spec fn char_markers(s: Seq<char>, ms: Seq<MarkerView>) -> Seq<MarkerView> {
    ms.map_values(
        |m: MarkerView|
            MarkerView {
                start: indent_chars(s, m.start as int) as nat,
                end: indent_chars(s, m.end as int) as nat,
                name: m.name,
            },
    )
}

/// Every marker starts and ends where a character does.
pub open spec fn on_boundaries(s: Seq<char>, ms: Seq<MarkerView>) -> bool {
    forall|k: int| 0 <= k < ms.len() ==> on_boundary(s, (#[trigger] ms[k]).start as int) && on_boundary(
        s,
        ms[k].end as int,
    )
}

pub open spec fn open_tag() -> Seq<char> {
    seq!['_', '$', '$']
}

pub open spec fn close_tag() -> Seq<char> {
    seq!['$', '$', '_']
}

/// A plugin name: non-empty, of ASCII letters, digits, `_` and `-`.
pub open spec fn valid_name(name: Seq<char>) -> bool {
    name.len() > 0 && forall|i: int| 0 <= i < name.len() ==> {
        let c = #[trigger] name[i];
        is_alnum(c) || c == '_' || c == '-'
    }
}

/// The markers of `s` from position `i` on: each `_$$` opens one, the next
/// `$$_` closes it, and the (trimmed) text between is kept when it is a valid
/// plugin name. Scanning stops at an unclosed marker.
pub open spec fn markers_from(s: Seq<char>, i: int) -> Seq<MarkerView>
    decreases s.len() - i,
{
    if i < 0 || i >= s.len() {
        Seq::<MarkerView>::empty()
    } else {
        match match_from(s, open_tag(), i) {
            None => Seq::<MarkerView>::empty(),
            Some(open) => match match_from(s, close_tag(), open + 3) {
                None => Seq::<MarkerView>::empty(),
                Some(close) => {
                    let name = trim_ws(s.subrange(open + 3, close));
                    let rest = if i < close + 3 <= s.len() {
                        markers_from(s, close + 3)
                    } else {
                        Seq::<MarkerView>::empty()
                    };
                    if valid_name(name) {
                        seq![MarkerView { start: open as nat, end: (close + 3) as nat, name }]
                            + rest
                    } else {
                        rest
                    }
                },
            },
        }
    }
}

pub fn is_valid_plugin_name_chars(name: &Vec<char>) -> (b: bool)
    ensures
        b == valid_name(name@),
{
    if name.len() == 0 {
        return false;
    }
    let mut i: usize = 0;
    while i < name.len()
        invariant
            i <= name.len(),
            forall|j: int| 0 <= j < i ==> {
                let c = #[trigger] name@[j];
                is_alnum(c) || c == '_' || c == '-'
            },
        decreases name.len() - i,
    {
        let c = name[i];
        if !(is_ascii_alphanumeric(c) || c == '_' || c == '-') {
            assert(!({
                let c = name@[i as int];
                is_alnum(c) || c == '_' || c == '-'
            }));
            return false;
        }
        i = i + 1;
    }
    true
}

/// Whether `name` can name a plugin.
pub fn is_valid_plugin_name(name: &str) -> (b: bool)
    ensures
        b == valid_name(name@),
{
    is_valid_plugin_name_chars(&chars_of(name))
}

fn tag_chars(open: bool) -> (r: Vec<char>)
    ensures
        open ==> r@ == open_tag(),
        !open ==> r@ == close_tag(),
{
    let mut r: Vec<char> = Vec::new();
    if open {
        r.push('_');
        r.push('$');
        r.push('$');
        assert(r@ =~= open_tag());
    } else {
        r.push('$');
        r.push('$');
        r.push('_');
        assert(r@ =~= close_tag());
    }
    r
}

/// The markers of a note, in order, at their byte offsets.
pub fn parse_markers(input: &str) -> (r: Vec<Marker>)
    requires
        byte_len(input@) <= usize::MAX,
    ensures
        markers_view(r@) == byte_markers(input@, markers_from(input@, 0)),
        on_boundaries(input@, markers_view(r@)),
        char_markers(input@, markers_view(r@)) == markers_from(input@, 0),
        ordered_markers(char_markers(input@, markers_view(r@)), input@.len()),
{
    proof {
        lemma_markers_ordered(input@, 0);
    }
    let s = chars_of(input);
    let open_t = tag_chars(true);
    let close_t = tag_chars(false);
    let mut out: Vec<Marker> = Vec::new();
    let ghost mut found: Seq<MarkerView> = Seq::empty();
    let mut i: usize = 0;
    while i < s.len()
        invariant
            s@ == input@,
            byte_len(input@) <= usize::MAX,
            open_t@ == open_tag(),
            close_t@ == close_tag(),
            ordered_markers(markers_from(s@, 0), s@.len()),
            found + markers_from(s@, i as int) == markers_from(s@, 0),
            markers_view(out@) == byte_markers(s@, found),
            forall|k: int| 0 <= k < found.len() ==> (#[trigger] found[k]).end <= s@.len(),
        decreases s.len() - i,
    {
        let open = match find_exec(&s, &open_t, i) {
            Some(o) => o,
            None => {
                assert(markers_from(s@, i as int) =~= Seq::<MarkerView>::empty());
                assert(found =~= found + markers_from(s@, i as int));
                proof {
                    lemma_placed_markers(s@, found);
                }
                return out;
            },
        };
        proof {
            crate::text::lemma_match_from_bound(s@, open_tag(), i as int, open as int);
        }
        assert(open + 3 <= s.len());
        let close = match find_exec(&s, &close_t, open + 3) {
            Some(c) => c,
            None => {
                assert(markers_from(s@, i as int) =~= Seq::<MarkerView>::empty());
                assert(found =~= found + markers_from(s@, i as int));
                proof {
                    lemma_placed_markers(s@, found);
                }
                return out;
            },
        };
        proof {
            crate::text::lemma_match_from_bound(s@, close_tag(), open + 3, close as int);
        }
        assert(close + 3 <= s.len());
        let end = close + 3;
        let raw = slice_chars(&s, open + 3, close);
        let name = trim_whitespace(&raw);
        let ghost rest = markers_from(s@, end as int);
        if is_valid_plugin_name_chars(&name) {
            let start_b = char_to_byte_idx(input, open);
            let end_b = char_to_byte_idx(input, end);
            let m = Marker { start: start_b, end: end_b, name: string_of(&name) };
            proof {
                let mv = MarkerView { start: open as nat, end: end as nat, name: name@ };
                assert(s@.take(s@.len() as int) =~= s@);
                assert(start_b == byte_len(s@.take(open as int)));
                assert(end_b == byte_len(s@.take(end as int)));
                assert(markers_from(s@, i as int) == seq![mv] + rest);
                assert(found.push(mv) + rest =~= found + (seq![mv] + rest));
                let bv = MarkerView { start: start_b as nat, end: end_b as nat, name: name@ };
                assert(marker_view(m) == bv);
                assert(markers_view(out@.push(m)) =~= markers_view(out@).push(bv));
                assert(byte_markers(s@, found.push(mv)) =~= byte_markers(s@, found).push(bv));
                found = found.push(mv);
            }
            out.push(m);
        } else {
            assert(markers_from(s@, i as int) == rest);
        }
        i = end;
    }
    assert(markers_from(s@, i as int) =~= Seq::<MarkerView>::empty());
    assert(found =~= found + markers_from(s@, i as int));
    proof {
        lemma_placed_markers(s@, found);
    }
    out
}

/// Markers found at character positions and placed at their byte offsets
/// start and end where characters do, and lead back to the same positions.
proof fn lemma_placed_markers(s: Seq<char>, ms: Seq<MarkerView>)
    requires
        forall|k: int| 0 <= k < ms.len() ==> (#[trigger] ms[k]).start <= ms[k].end <= s.len(),
    ensures
        on_boundaries(s, byte_markers(s, ms)),
        char_markers(s, byte_markers(s, ms)) == ms,
{
    let bm = byte_markers(s, ms);
    assert forall|k: int| 0 <= k < bm.len() implies on_boundary(s, (#[trigger] bm[k]).start as int) && on_boundary(
        s,
        bm[k].end as int,
    ) by {
        lemma_boundary_of_char(s, ms[k].start as int);
        lemma_boundary_of_char(s, ms[k].end as int);
    }
    assert forall|k: int| 0 <= k < ms.len() implies #[trigger] char_markers(s, bm)[k] == ms[k] by {
        lemma_boundary_of_char(s, ms[k].start as int);
        lemma_boundary_of_char(s, ms[k].end as int);
    }
    assert(char_markers(s, bm) =~= ms);
}

/// The file of plugin `name`: `<plugins_dir>/<name>.wasm`.
pub fn plugin_path(plugins_dir: &str, name: &str) -> (r: String)
    ensures
        r@ == path_join(plugins_dir@, name@ + seq!['.', 'w', 'a', 's', 'm']),
{
    let mut file = chars_of(name);
    let mut ext: Vec<char> = Vec::new();
    ext.push('.');
    ext.push('w');
    ext.push('a');
    ext.push('s');
    ext.push('m');
    assert(ext@ =~= seq!['.', 'w', 'a', 's', 'm']);
    push_all(&mut file, &ext);
    string_of(&path_join_chars(&chars_of(plugins_dir), &file))
}


/// Markers in order, not overlapping, inside a text of length `len`.
pub open spec fn ordered_markers(ms: Seq<MarkerView>, len: nat) -> bool {
    &&& forall|k: int| 0 <= k < ms.len() ==> (#[trigger] ms[k]).start <= ms[k].end <= len
    &&& forall|k: int| 0 < k < ms.len() ==> ms[k - 1].end <= (#[trigger] ms[k]).start
}

pub proof fn lemma_markers_ordered(s: Seq<char>, i: int)
    requires
        0 <= i,
    ensures
        ordered_markers(markers_from(s, i), s.len()),
        forall|k: int| 0 <= k < markers_from(s, i).len() ==> i <= (#[trigger] markers_from(s, i)[k]).start,
    decreases s.len() - i,
{
    if i < s.len() {
        if let Some(open) = match_from(s, open_tag(), i) {
            crate::text::lemma_match_from_bound(s, open_tag(), i, open);
            if let Some(close) = match_from(s, close_tag(), open + 3) {
                crate::text::lemma_match_from_bound(s, close_tag(), open + 3, close);
                lemma_markers_ordered(s, close + 3);
                let rest = markers_from(s, close + 3);
                let name = trim_ws(s.subrange(open + 3, close));
                if valid_name(name) {
                    let mv = MarkerView { start: open as nat, end: (close + 3) as nat, name };
                    let all = seq![mv] + rest;
                    assert(markers_from(s, i) == all);
                    assert forall|k: int| 0 < k < all.len() implies all[k - 1].end <= (
                    #[trigger] all[k]).start by {
                        if k > 1 {
                            assert(all[k - 1] == rest[k - 2]);
                        }
                        assert(all[k] == rest[k - 1]);
                    }
                    assert forall|k: int| 0 <= k < all.len() implies (#[trigger] all[k]).start
                        <= all[k].end <= s.len() && i <= all[k].start by {
                        if k > 0 {
                            assert(all[k] == rest[k - 1]);
                        }
                    }
                }
            }
        }
    }
}

/// The end of the marker before marker `k`, or 0.
pub open spec fn prev_end(ms: Seq<MarkerView>, k: int) -> nat {
    if k <= 0 {
        0
    } else {
        ms[k - 1].end
    }
}

/// What stands in the note for marker `k`: the plugin's output, or the
/// marker itself when the plugin failed.
pub open spec fn piece(s: Seq<char>, ms: Seq<MarkerView>, outs: Seq<Result<Seq<char>, Seq<char>>>, k: int) -> Seq<char> {
    match outs[k] {
        Ok(o) => o,
        Err(_) => s.subrange(ms[k].start as int, ms[k].end as int),
    }
}

/// The text up to the end of marker `k - 1`, with the markers replaced.
pub open spec fn spliced_upto(s: Seq<char>, ms: Seq<MarkerView>, outs: Seq<Result<Seq<char>, Seq<char>>>, k: int) -> Seq<char>
    decreases k,
{
    if k <= 0 {
        Seq::<char>::empty()
    } else {
        spliced_upto(s, ms, outs, k - 1) + s.subrange(prev_end(ms, k - 1) as int, ms[k - 1].start as int)
            + piece(s, ms, outs, k - 1)
    }
}

/// The note with every marker replaced.
pub open spec fn spliced(s: Seq<char>, ms: Seq<MarkerView>, outs: Seq<Result<Seq<char>, Seq<char>>>) -> Seq<char> {
    spliced_upto(s, ms, outs, ms.len() as int) + s.skip(prev_end(ms, ms.len() as int) as int)
}

pub open spec fn ok_count(outs: Seq<Result<Seq<char>, Seq<char>>>, k: int) -> nat
    decreases k,
{
    if k <= 0 {
        0
    } else {
        ok_count(outs, k - 1) + if outs[k - 1] is Ok {
            1nat
        } else {
            0nat
        }
    }
}

/// `name: error` for each failed plugin, in order.
pub open spec fn error_lines(ms: Seq<MarkerView>, outs: Seq<Result<Seq<char>, Seq<char>>>, k: int) -> Seq<Seq<char>>
    decreases k,
{
    if k <= 0 {
        Seq::<Seq<char>>::empty()
    } else {
        let prev = error_lines(ms, outs, k - 1);
        match outs[k - 1] {
            Ok(_) => prev,
            Err(e) => prev.push(ms[k - 1].name + seq![':', ' '] + e),
        }
    }
}

pub open spec fn outs_view(outs: Seq<Result<String, String>>) -> Seq<Result<Seq<char>, Seq<char>>> {
    outs.map_values(
        |o: Result<String, String>|
            match o {
                Ok(s) => Ok(s@),
                Err(e) => Err(e@),
            },
    )
}

/// Replaces each marker by its plugin's output (`Ok`), or keeps it and
/// reports `name: error` (`Err`); also counts the replacements.
#[verifier::rlimit(40)]
pub fn apply_plugin_outputs(
    source: &str,
    markers: &Vec<Marker>,
    outputs: &Vec<Result<String, String>>,
) -> (r: (String, PluginRunReport))
    requires
        outputs.len() == markers.len(),
        byte_len(source@) <= usize::MAX,
        on_boundaries(source@, markers_view(markers@)),
        ordered_markers(char_markers(source@, markers_view(markers@)), source@.len()),
    ensures
        r.0@ == spliced(source@, char_markers(source@, markers_view(markers@)), outs_view(outputs@)),
        r.1.replacements == ok_count(outs_view(outputs@), markers@.len() as int),
        crate::index::strs(r.1.errors@) == error_lines(
            char_markers(source@, markers_view(markers@)),
            outs_view(outputs@),
            markers@.len() as int,
        ),
{
    let s = chars_of(source);
    let ghost ms = char_markers(source@, markers_view(markers@));
    let ghost os = outs_view(outputs@);
    let mut out: Vec<char> = Vec::new();
    let mut last: usize = 0;
    let mut replacements: usize = 0;
    let mut errors: Vec<String> = Vec::new();
    let mut k: usize = 0;
    while k < markers.len()
        invariant
            s@ == source@,
            outputs.len() == markers.len(),
            ms == char_markers(source@, markers_view(markers@)),
            byte_len(source@) <= usize::MAX,
            on_boundaries(source@, markers_view(markers@)),
            os == outs_view(outputs@),
            ordered_markers(ms, s@.len()),
            k <= markers.len(),
            last == prev_end(ms, k as int),
            last <= s.len(),
            out@ == spliced_upto(s@, ms, os, k as int),
            replacements == ok_count(os, k as int),
            replacements <= k,
            crate::index::strs(errors@) == error_lines(ms, os, k as int),
        decreases markers.len() - k,
    {
        let m = &markers[k];
        assert(markers_view(markers@)[k as int] == marker_view(*m));
        let start = char_index_of_byte(source, m.start);
        let end = char_index_of_byte(source, m.end);
        assert(ms[k as int] == MarkerView { start: start as nat, end: end as nat, name: m.name@ });
        let before = slice_chars(&s, last, start);
        push_all(&mut out, &before);
        match &outputs[k] {
            Ok(text) => {
                assert(os[k as int] == Ok::<Seq<char>, Seq<char>>(text@));
                push_all(&mut out, &chars_of(text.as_str()));
                replacements = replacements + 1;
            },
            Err(err) => {
                assert(os[k as int] == Err::<Seq<char>, Seq<char>>(err@));
                let kept = slice_chars(&s, start, end);
                push_all(&mut out, &kept);
                let mut line = chars_of(m.name.as_str());
                line.push(':');
                line.push(' ');
                push_all(&mut line, &chars_of(err.as_str()));
                let e = string_of(&line);
                proof {
                    assert(e@ =~= ms[k as int].name + seq![':', ' '] + err@);
                    assert(crate::index::strs(errors@.push(e)) =~= crate::index::strs(errors@).push(e@));
                }
                errors.push(e);
            },
        }
        last = end;
        k = k + 1;
    }
    let tail = slice_chars(&s, last, s.len());
    assert(tail@ =~= s@.skip(last as int));
    push_all(&mut out, &tail);
    (string_of(&out), PluginRunReport { replacements, errors })
}

} // verus!
