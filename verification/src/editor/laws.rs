//! What holds across calls of the editor.
use vstd::prelude::*;
use crate::editor::machine::{command_step, serialize, split_lines, step, storage_step, EditorView, OutView, PendingView};
use crate::editor::storage::Storage;
use crate::text::{join, split, CharSet, is_ws, trim_start, trim_ws, lemma_lead_exact, lemma_trail_exact, lemma_trim_noop};
use crate::editor::command::{command_of, CmdView};

verus! {

proof fn lemma_split_push_sep(x: Seq<char>)
    ensures
        split(x.push('\n'), CharSet::Only('\n')) == split(x, CharSet::Only('\n')).push(
            Seq::<char>::empty(),
        ),
{
    assert(x.push('\n').drop_last() =~= x);
}

pub(crate) proof fn lemma_split_append_plain(x: Seq<char>, b: Seq<char>)
    requires
        !b.contains('\n'),
    ensures
        split(x + b, CharSet::Only('\n')) == {
            let p = split(x, CharSet::Only('\n'));
            p.update(p.len() - 1, p.last() + b)
        },
    decreases b.len(),
{
    crate::text::lemma_split_len(x, CharSet::Only('\n'));
    if b.len() == 0 {
        assert(x + b =~= x);
        let p = split(x, CharSet::Only('\n'));
        assert(p.last() + b =~= p.last());
        assert(p.update(p.len() - 1, p.last()) =~= p);
    } else {
        let b0 = b.drop_last();
        assert(!b0.contains('\n')) by {
            if b0.contains('\n') {
                let j = choose|j: int| 0 <= j < b0.len() && b0[j] == '\n';
                assert(b[j] == '\n');
            }
        }
        lemma_split_append_plain(x, b0);
        assert((x + b).drop_last() =~= x + b0);
        assert((x + b).last() == b.last());
        assert(b.last() != '\n') by {
            if b.last() == '\n' {
                assert(b.contains('\n'));
            }
        }
        let p = split(x, CharSet::Only('\n'));
        assert(p.last() + b0.push(b.last()) =~= p.last() + b);
        assert(b0.push(b.last()) =~= b);
    }
}

/// Joining lines that hold no newline by newlines and splitting the result
/// at newlines gives the lines back.
pub proof fn lemma_split_join(ls: Seq<Seq<char>>)
    requires
        ls.len() >= 1,
        forall|i: int| 0 <= i < ls.len() ==> !(#[trigger] ls[i]).contains('\n'),
    ensures
        split(join(ls, seq!['\n']), CharSet::Only('\n')) == ls,
    decreases ls.len(),
{
    if ls.len() == 1 {
        assert(!ls[0].contains('\n'));
        lemma_split_append_plain(Seq::<char>::empty(), ls[0]);
        assert(Seq::<char>::empty() + ls[0] =~= ls[0]);
        assert(split(Seq::<char>::empty(), CharSet::Only('\n')) =~= seq![Seq::<char>::empty()]);
        assert(Seq::<char>::empty() + ls[0] =~= ls[0]);
        assert(seq![Seq::<char>::empty()].update(0, Seq::<char>::empty() + ls[0]) =~= ls);
    } else {
        let d = ls.drop_last();
        assert forall|i: int| 0 <= i < d.len() implies !(#[trigger] d[i]).contains('\n') by {
            assert(d[i] == ls[i]);
        }
        lemma_split_join(d);
        let a = join(d, seq!['\n']);
        assert(!ls.last().contains('\n'));
        assert(join(ls, seq!['\n']) == a + seq!['\n'] + ls.last());
        assert(a + seq!['\n'] + ls.last() =~= a.push('\n') + ls.last());
        lemma_split_push_sep(a);
        lemma_split_append_plain(a.push('\n'), ls.last());
        let p = split(a.push('\n'), CharSet::Only('\n'));
        assert(p == d.push(Seq::<char>::empty()));
        assert(Seq::<char>::empty() + ls.last() =~= ls.last());
        assert(p.update(p.len() - 1, p.last() + ls.last()) =~= ls);
    }
}

/// Read after write: the text the editor writes for a buffer whose lines hold
/// no newline reads back as the same buffer, unless the buffer is the single
/// empty line (which writes as an empty file and reads back as no lines).
pub proof fn lemma_write_then_read(lines: Seq<Seq<char>>)
    requires
        forall|i: int| 0 <= i < lines.len() ==> !(#[trigger] lines[i]).contains('\n'),
        lines != seq![Seq::<char>::empty()],
    ensures
        split_lines(serialize(lines)) == lines,
{
    let j = join(lines, seq!['\n']);
    if lines.len() == 0 {
        assert(j.len() == 0);
        assert(split_lines(serialize(lines)) =~= lines);
    } else {
        lemma_split_join(lines);
        if j.len() == 0 {
            if lines.len() == 1 {
                assert(lines[0] =~= Seq::<char>::empty());
                assert(lines =~= seq![Seq::<char>::empty()]);
            } else {
                assert(join(lines, seq!['\n']) == join(lines.drop_last(), seq!['\n']) + seq!['\n']
                    + lines.last());
                assert(false);
            }
        } else {
            assert(serialize(lines) == j.push('\n'));
            lemma_split_push_sep(j);
            assert(j.push('\n').last() == '\n');
            assert(split_lines(serialize(lines)) == split(j, CharSet::Only('\n')).push(
                Seq::<char>::empty(),
            ).drop_last());
            assert(split(j, CharSet::Only('\n')).push(Seq::<char>::empty()).drop_last() =~= split(
                j,
                CharSet::Only('\n'),
            ));
        }
    }
}

/// Input mode: after `a` has opened input mode after line `after`, typing the
/// lines `typed` (none of them `.`) and then `.` puts exactly those lines
/// after line `after` and marks the buffer modified.
pub proof fn lemma_typed_lines_inserted(
    states: Seq<EditorView>,
    outs: Seq<OutView>,
    typed: Seq<Seq<char>>,
    after: nat,
)
    requires
        states.len() == typed.len() + 2,
        outs.len() == typed.len() + 1,
        states[0].pending == Some(PendingView::Append { after, lines: Seq::empty() }),
        after <= states[0].lines.len(),
        forall|i: int| 0 <= i < typed.len() ==> #[trigger] typed[i] != seq!['.'],
        forall|i: int|
            0 <= i < typed.len() ==> step(#[trigger] states[i], typed[i], states[i + 1], outs[i]),
        step(states[typed.len() as int], seq!['.'], states.last(), outs.last()),
    ensures
        states.last().lines == states[0].lines.take(after as int) + typed + states[0].lines.skip(
            after as int,
        ),
        states.last().modified,
        states.last().pending is None,
{
    assert forall|i: int| 0 <= i <= typed.len() implies #[trigger] states[i].lines
        == states[0].lines && states[i].pending == Some(
        PendingView::Append { after, lines: typed.take(i) },
    ) by {
        lemma_typed_prefix(states, outs, typed, after, i);
    }
    let n = typed.len() as int;
    assert(typed.take(n) =~= typed);
    assert(states[n].lines == states[0].lines);
}

proof fn lemma_typed_prefix(
    states: Seq<EditorView>,
    outs: Seq<OutView>,
    typed: Seq<Seq<char>>,
    after: nat,
    i: int,
)
    requires
        states.len() == typed.len() + 2,
        outs.len() == typed.len() + 1,
        states[0].pending == Some(PendingView::Append { after, lines: Seq::empty() }),
        forall|j: int| 0 <= j < typed.len() ==> #[trigger] typed[j] != seq!['.'],
        forall|j: int|
            0 <= j < typed.len() ==> step(#[trigger] states[j], typed[j], states[j + 1], outs[j]),
        0 <= i <= typed.len(),
    ensures
        states[i].lines == states[0].lines,
        states[i].pending == Some(PendingView::Append { after, lines: typed.take(i) }),
    decreases i,
{
    if i == 0 {
        assert(typed.take(0) =~= Seq::<Seq<char>>::empty());
    } else {
        lemma_typed_prefix(states, outs, typed, after, i - 1);
        assert(step(states[i - 1], typed[i - 1], states[i], outs[i - 1]));
        assert(typed[i - 1] != seq!['.']);
        assert(typed.take(i - 1).push(typed[i - 1]) =~= typed.take(i));
    }
}

proof fn lemma_join_split(x: Seq<char>)
    ensures
        join(split(x, CharSet::Only('\n')), seq!['\n']) == x,
    decreases x.len(),
{
    if x.len() > 0 {
        let y = x.drop_last();
        lemma_join_split(y);
        crate::text::lemma_split_len(y, CharSet::Only('\n'));
        let p = split(y, CharSet::Only('\n'));
        if x.last() == '\n' {
            assert(p.push(Seq::<char>::empty()).drop_last() =~= p);
            assert(join(p, seq!['\n']) + seq!['\n'] + Seq::<char>::empty() =~= x);
        } else {
            let q = p.update(p.len() - 1, p.last().push(x.last()));
            if p.len() == 1 {
                assert(q[0] =~= y.push(x.last()));
                assert(y.push(x.last()) =~= x);
            } else {
                assert(q.drop_last() =~= p.drop_last());
                assert(join(p, seq!['\n']) == join(p.drop_last(), seq!['\n']) + seq!['\n'] + p.last());
                assert(join(q, seq!['\n']) =~= (join(p.drop_last(), seq!['\n']) + seq!['\n'] + p.last()).push(
                    x.last(),
                ));
                assert(y.push(x.last()) =~= x);
            }
        }
    }
}

/// Write after read: a file read into the buffer and written back gives
/// the same text, when the text is empty or ends in a newline (and is not
/// the lone newline, which reads as one empty line and writes as an empty
/// file).
pub proof fn lemma_read_then_write(c: Seq<char>)
    requires
        c.len() == 0 || (c.last() == '\n' && c != seq!['\n']),
    ensures
        serialize(split_lines(c)) == c,
{
    if c.len() == 0 {
        assert(split_lines(c) =~= Seq::<Seq<char>>::empty());
        assert(serialize(split_lines(c)) =~= c);
    } else {
        let y = c.drop_last();
        lemma_split_push_sep(y);
        assert(y.push('\n') =~= c);
        let p = split(y, CharSet::Only('\n'));
        assert(split_lines(c) == p.push(Seq::<char>::empty()).drop_last());
        assert(p.push(Seq::<char>::empty()).drop_last() =~= p);
        lemma_join_split(y);
        if y.len() == 0 {
            assert(c =~= seq!['\n']);
        }
    }
}

/// The commands that open input mode: `a`, `i` and `c`.
pub open spec fn opens_input(cmd: CmdView) -> bool {
    cmd is Append || cmd is Insert || cmd is Change
}

/// Step `j` of a run was an `a`, `i` or `c` typed outside input mode that
/// succeeded.
pub open spec fn entered_input(states: Seq<EditorView>, inputs: Seq<Seq<char>>, outs: Seq<OutView>, j: int) -> bool {
    &&& states[j].pending is None
    &&& command_of(inputs[j]) matches Ok(cmd) && opens_input(cmd)
    &&& outs[j] is Done
}

/// No line typed after step `j` and before step `n` was `.`.
pub open spec fn no_dot_between(inputs: Seq<Seq<char>>, j: int, n: int) -> bool {
    forall|m: int| j < m < n ==> #[trigger] inputs[m] != seq!['.']
}

/// A run of the editor: `states[k + 1]` and `outs[k]` are what `execute` made
/// of `states[k]` and `inputs[k]`.
pub open spec fn is_run(states: Seq<EditorView>, inputs: Seq<Seq<char>>, outs: Seq<OutView>) -> bool {
    &&& states.len() == inputs.len() + 1
    &&& outs.len() == inputs.len()
    &&& forall|k: int| 0 <= k < inputs.len() ==> #[trigger] step(states[k], inputs[k], states[k + 1], outs[k])
}

/// One call: the editor is in input mode afterwards exactly when an `a`,
/// `i` or `c` outside input mode succeeded, or it was in input mode and the
/// line was not `.`.
pub proof fn lemma_step_input_mode(pre: EditorView, input: Seq<char>, post: EditorView, out: OutView)
    requires
        step(pre, input, post, out),
    ensures
        post.pending is Some <==> ((pre.pending is None && (command_of(input) matches Ok(cmd) && opens_input(cmd))
            && out is Done) || (pre.pending is Some && input != seq!['.'])),
{
}

/// What one step of a run does to input mode.
pub open spec fn mode_after(states: Seq<EditorView>, inputs: Seq<Seq<char>>, outs: Seq<OutView>, k: int) -> bool {
    states[k + 1].pending is Some <==> (entered_input(states, inputs, outs, k) || (states[k].pending is Some
        && inputs[k] != seq!['.']))
}

proof fn lemma_run_modes(states: Seq<EditorView>, inputs: Seq<Seq<char>>, outs: Seq<OutView>)
    requires
        is_run(states, inputs, outs),
    ensures
        forall|k: int| 0 <= k < inputs.len() ==> #[trigger] mode_after(states, inputs, outs, k),
{
    assert forall|k: int| 0 <= k < inputs.len() implies #[trigger] mode_after(states, inputs, outs, k) by {
        assert(step(states[k], inputs[k], states[k + 1], outs[k]));
        lemma_step_input_mode(states[k], inputs[k], states[k + 1], outs[k]);
    }
}

proof fn lemma_mode_history(states: Seq<EditorView>, inputs: Seq<Seq<char>>, outs: Seq<OutView>, n: int)
    requires
        states.len() == inputs.len() + 1,
        outs.len() == inputs.len(),
        forall|k: int| 0 <= k < inputs.len() ==> #[trigger] mode_after(states, inputs, outs, k),
        states[0].pending is None,
        0 <= n <= inputs.len(),
    ensures
        states[n].pending is Some <==> exists|j: int|
            0 <= j < n && #[trigger] entered_input(states, inputs, outs, j) && no_dot_between(inputs, j, n),
    decreases n,
{
    if n > 0 {
        lemma_mode_history(states, inputs, outs, n - 1);
        let k = n - 1;
        assert(mode_after(states, inputs, outs, k));
        if states[n].pending is Some {
            if entered_input(states, inputs, outs, k) {
                assert(no_dot_between(inputs, k, n));
            } else {
                let j = choose|j: int|
                    0 <= j < k && #[trigger] entered_input(states, inputs, outs, j) && no_dot_between(inputs, j, k);
                assert forall|m: int| j < m < n implies #[trigger] inputs[m] != seq!['.'] by {
                    if m < k {
                        assert(inputs[m] != seq!['.']);
                    }
                }
                assert(entered_input(states, inputs, outs, j) && no_dot_between(inputs, j, n));
            }
        } else {
            assert forall|j: int| 0 <= j < n && #[trigger] entered_input(states, inputs, outs, j) implies !no_dot_between(
                inputs,
                j,
                n,
            ) by {
                if j < k {
                    if no_dot_between(inputs, j, n) {
                        assert forall|m: int| j < m < k implies #[trigger] inputs[m] != seq!['.'] by {
                            assert(inputs[m] != seq!['.']);
                        }
                        assert(states[k].pending is Some);
                        assert(inputs[k] != seq!['.']);
                    }
                }
            }
        }
    }
}

/// Input mode over a run: starting outside input mode, the editor is in
/// input mode after `n` calls exactly when some call, made outside input
/// mode, ran an `a`, `i` or `c` that succeeded and no `.` was typed after it.
pub proof fn lemma_input_mode_history(states: Seq<EditorView>, inputs: Seq<Seq<char>>, outs: Seq<OutView>, n: int)
    requires
        is_run(states, inputs, outs),
        states[0].pending is None,
        0 <= n <= inputs.len(),
    ensures
        states[n].pending is Some <==> exists|j: int|
            0 <= j < n && #[trigger] entered_input(states, inputs, outs, j) && no_dot_between(inputs, j, n),
{
    lemma_run_modes(states, inputs, outs);
    lemma_mode_history(states, inputs, outs, n);
}

/// `e` then `w` writes back what was read: after a successful `e` of a path,
/// a `w` without a name hands storage, for that path, the very text that
/// reading it gave, when that text is empty or ends in a newline (and is not
/// the lone newline).
pub proof fn lemma_edit_then_write<S: Storage>(
    s: S,
    pre: EditorView,
    p: Seq<char>,
    mid: EditorView,
    out1: OutView,
    post: EditorView,
    out2: OutView,
)
    requires
        command_step(pre, CmdView::Edit { path: Some(p) }, mid, out1),
        storage_step(s, pre, CmdView::Edit { path: Some(p) }, mid, out1),
        out1 is Done,
        storage_step(s, mid, CmdView::Write { path: None }, post, out2),
    ensures
        exists|c: Seq<char>|
            #[trigger] s.read_gave(p, c) && ((c.len() == 0 || (c.last() == '\n' && c != seq!['\n']))
                ==> s.write_took(p, c, out2 is Done)),
{
    let c = choose|c: Seq<char>| s.read_gave(p, c) && mid.lines == split_lines(c);
    if c.len() == 0 || (c.last() == '\n' && c != seq!['\n']) {
        lemma_read_then_write(c);
    }
    assert(s.read_gave(p, c));
}

/// `e` followed by a space and a path without surrounding whitespace is the
/// command that edits that path; `w` alone writes to the buffer's file.
pub proof fn lemma_parse_e_and_w(p: Seq<char>)
    requires
        p.len() > 0,
        !is_ws(p[0]),
        !is_ws(p.last()),
    ensures
        command_of(seq!['e', ' '] + p) == Ok::<CmdView, (crate::editor::error::ErrorKind, Seq<char>)>(
            CmdView::Edit { path: Some(p) },
        ),
        command_of(seq!['w']) == Ok::<CmdView, (crate::editor::error::ErrorKind, Seq<char>)>(
            CmdView::Write { path: None },
        ),
{
    let ws = CharSet::Whitespace;
    let t = seq!['e', ' '] + p;
    assert(t.last() == p.last());
    lemma_trim_noop(t, ws);
    assert(t.skip(0) =~= t);
    lemma_lead_exact(t, ws, 0);
    assert(trim_start(t, ws) == t);
    let r = t.drop_first();
    assert(r =~= seq![' '] + p);
    assert(r[1] == p[0]);
    lemma_lead_exact(r, ws, 1);
    let u = r.skip(1);
    assert(u =~= p);
    lemma_trim_noop(p, ws);
    lemma_trail_exact(u, ws, 0);
    assert(u.take(u.len() as int) =~= u);
    assert(trim_ws(r) == p);
    let w = seq!['w'];
    lemma_trim_noop(w, ws);
    assert(w.skip(0) =~= w);
    lemma_lead_exact(w, ws, 0);
    assert(trim_start(w, ws) == w);
    let e = w.drop_first();
    assert(e =~= Seq::<char>::empty());
    lemma_trim_noop(e, ws);
}

/// `e p` then `w`, as typed: after a successful `e` of a path without
/// surrounding whitespace, a `w` hands storage, for that path, the very text
/// that reading it gave, when that text is empty or ends in a newline (and
/// is not the lone newline). The premises on storage are what `execute`
/// ensures of each call.
pub proof fn lemma_typed_edit_then_write<S: Storage>(
    s: S,
    p: Seq<char>,
    pre: EditorView,
    mid: EditorView,
    out1: OutView,
    post: EditorView,
    out2: OutView,
)
    requires
        p.len() > 0,
        !is_ws(p[0]),
        !is_ws(p.last()),
        pre.pending is None,
        step(pre, seq!['e', ' '] + p, mid, out1),
        command_of(seq!['e', ' '] + p) matches Ok(cmd) ==> storage_step(s, pre, cmd, mid, out1),
        out1 is Done,
        command_of(seq!['w']) matches Ok(cmd) ==> storage_step(s, mid, cmd, post, out2),
    ensures
        exists|c: Seq<char>|
            #[trigger] s.read_gave(p, c) && ((c.len() == 0 || (c.last() == '\n' && c != seq!['\n']))
                ==> s.write_took(p, c, out2 is Done)),
{
    lemma_parse_e_and_w(p);
    lemma_edit_then_write(s, pre, p, mid, out1, post, out2);
}

} // verus!
