//! A segment of a line of the preview rendered as runs of styled text: the
//! markdown parser's events styled through a stack of styles, then the
//! emphasis markers, the list prefix and the wikilinks on top.
use vstd::prelude::*;
use crate::text::{chars_of, lead, lead_len, string_of, CharSet};
use crate::tui::chars::{
    build_byte_to_char_map, byte_index, byte_len, char_index_of_byte, char_to_byte_idx, indent_chars, on_boundary,
    starts_before, utf8_len,
};
use crate::tui::markdown::{
    apply_style_for_byte_range, byte_range_styled, heading_look, highlight_list_prefix, highlight_markers,
    highlight_wikilinks, line_base, links_from, list_styled, markers_from, no_mods, runs_view,
    segment_base_style, spans_from_chars_with_styles, style_runs, with_bg, with_fg, with_mods, Hue, Look, Mods,
};
use pulldown_cmark::Event::{Code, End, FootnoteReference, Html, InlineHtml, Start, TaskListMarker, Text};
use pulldown_cmark::Tag::{CodeBlock, Emphasis, Heading, Image, Link, Strikethrough, Strong};
use pulldown_cmark::{Options, Parser};
use self::MdEvent::{
    Close, CodeSpan, FootnoteRef, HtmlNode, InlineHtmlNode, OpenCodeBlock, OpenEmphasis, OpenHeading, OpenImage, OpenLink,
    OpenOther, OpenStrikethrough, OpenStrong, OtherEvent, TaskBox, TextRun,
};

verus! {

broadcast use vstd::string::group_string_axioms;

/// A markdown parser event, as far as styling tells events apart: the
/// element a start opens, an end, and the events that cover text.
#[derive(Clone, Copy, Debug, PartialEq, Eq, Structural)]
pub enum MdEvent {
    OpenEmphasis,
    OpenStrong,
    OpenStrikethrough,
    OpenCodeBlock,
    OpenLink,
    OpenImage,
    /// A heading opens, with its level (1 to 6).
    OpenHeading(u8),
    /// Any other element opens.
    OpenOther,
    Close,
    TextRun,
    CodeSpan,
    HtmlNode,
    InlineHtmlNode,
    /// A task list's box, and whether it is checked.
    TaskBox(bool),
    FootnoteRef,
    OtherEvent,
}

/// The parser's options the preview uses, as pulldown-cmark numbers them:
/// tables (2), footnotes (4), strikethrough (8) and task lists (16).
pub const MARKDOWN_OPTIONS: u32 = 30;

/// What pulldown-cmark's parser yields for a text under the options
/// `flags`: each event with the byte range of the text it covers.
pub uninterp spec fn md_events(text: Seq<char>, flags: u32) -> Seq<(MdEvent, usize, usize)>;

/// pulldown-cmark's `Parser::new_ext(..).into_offset_iter()`, each event
/// told apart by its variant; the result is named `md_events`.
#[verifier::external_body]
fn markdown_events(text: &str, flags: u32) -> (r: Vec<(MdEvent, usize, usize)>)
    ensures
        r@ == md_events(text@, flags),
{
    Parser::new_ext(text, Options::from_bits_truncate(flags)).into_offset_iter().map(|(e, r)| (match e {
        Start(Emphasis) => OpenEmphasis, Start(Strong) => OpenStrong, Start(Strikethrough) => OpenStrikethrough,
        Start(CodeBlock(_)) => OpenCodeBlock, Start(Link { .. }) => OpenLink, Start(Image { .. }) => OpenImage,
        Start(Heading { level, .. }) => OpenHeading(level as u8), Start(_) => OpenOther, End(_) => Close,
        Text(_) => TextRun, Code(_) => CodeSpan, Html(_) => HtmlNode, InlineHtml(_) => InlineHtmlNode,
        TaskListMarker(c) => TaskBox(c), FootnoteReference(_) => FootnoteRef, _ => OtherEvent,
    }, r.start, r.end)).collect()
}

pub open spec fn italic() -> Mods {
    Mods { italic: true, ..no_mods() }
}

pub open spec fn crossed_out() -> Mods {
    Mods { crossed_out: true, ..no_mods() }
}

/// The style the element an event opens gets inside style `cur`; none for
/// events that open nothing.
pub open spec fn opened(ev: MdEvent, cur: Look) -> Option<Look> {
    match ev {
        MdEvent::OpenEmphasis => Some(with_mods(cur, italic())),
        MdEvent::OpenStrong => Some(with_mods(cur, Mods { bold: true, ..no_mods() })),
        MdEvent::OpenStrikethrough => Some(with_mods(cur, crossed_out())),
        MdEvent::OpenCodeBlock => Some(with_fg(with_bg(cur, Hue::DarkGray), Hue::White)),
        MdEvent::OpenLink => Some(with_mods(with_fg(cur, Hue::Green), Mods { underlined: true, ..no_mods() })),
        MdEvent::OpenImage => Some(with_mods(with_fg(cur, Hue::Yellow), Mods { bold: true, ..no_mods() })),
        MdEvent::OpenHeading(level) => Some(heading_look(cur, level)),
        MdEvent::OpenOther => Some(cur),
        _ => None,
    }
}

/// The style an event paints its bytes in, inside style `top`; none for
/// events that paint nothing.
pub open spec fn event_paint(ev: MdEvent, top: Look) -> Option<Look> {
    match ev {
        MdEvent::CodeSpan => Some(with_fg(with_bg(top, Hue::DarkGray), Hue::Yellow)),
        MdEvent::TextRun | MdEvent::HtmlNode | MdEvent::InlineHtmlNode => Some(top),
        MdEvent::TaskBox(checked) => Some(
            if checked {
                with_mods(with_fg(top, Hue::Green), crossed_out())
            } else {
                with_mods(with_fg(top, Hue::Yellow), Mods { dim: true, ..no_mods() })
            },
        ),
        MdEvent::FootnoteRef => Some(with_fg(top, Hue::Blue)),
        _ => None,
    }
}

/// The styles of the characters and the stack of styles after the events
/// `evs[..k]`, starting from every character in `base` and the stack
/// holding `base` alone: a start pushes its element's style, an end pops
/// (never the bottom), and text, code, HTML, task boxes and footnote
/// references paint their bytes.
pub open spec fn walk(map: Seq<usize>, n: nat, evs: Seq<(MdEvent, usize, usize)>, base: Look, k: int) -> (Seq<Look>, Seq<Look>)
    decreases k,
{
    if k <= 0 {
        (Seq::new(n, |i: int| base), seq![base])
    } else {
        let (st, stack) = walk(map, n, evs, base, k - 1);
        let (ev, s, e) = evs[k - 1];
        match opened(ev, stack.last()) {
            Some(l) => (st, stack.push(l)),
            None => if ev == MdEvent::Close {
                (st, if stack.len() > 1 { stack.drop_last() } else { stack })
            } else {
                match event_paint(ev, stack.last()) {
                    Some(paint) => (byte_range_styled(st, map, s as int, e as int, paint), stack),
                    None => (st, stack),
                }
            },
        }
    }
}

/// From byte offsets to character indices: for each offset up to the
/// text's length in bytes, how many characters start before it.
pub open spec fn byte_map(t: Seq<char>) -> Seq<usize> {
    Seq::new(byte_len(t) + 1, |j: int| starts_before(t, j, t.len() as int) as usize)
}

/// The styles the events give the characters of `t`.
pub open spec fn event_styles(t: Seq<char>, evs: Seq<(MdEvent, usize, usize)>, base: Look) -> Seq<Look> {
    walk(byte_map(t), t.len(), evs, base, evs.len() as int).0
}

proof fn lemma_starts_before_bound(s: Seq<char>, j: int, k: int)
    ensures
        starts_before(s, j, k) <= if k < 0 { 0 } else { k },
    decreases k,
{
    if k > 0 {
        lemma_starts_before_bound(s, j, k - 1);
    }
}

proof fn lemma_len_le_bytes(s: Seq<char>)
    ensures
        s.len() <= byte_len(s),
    decreases s.len(),
{
    if s.len() > 0 {
        lemma_len_le_bytes(s.drop_last());
    }
}

fn byte_map_of(text: &Vec<char>) -> (map: Vec<usize>)
    requires
        byte_len(text@) < usize::MAX,
    ensures
        map@ == byte_map(text@),
{
    let s = string_of(text);
    let map = build_byte_to_char_map(s.as_str());
    proof {
        lemma_len_le_bytes(text@);
        assert forall|j: int| 0 <= j < map@.len() implies map@[j] == byte_map(text@)[j] by {
            lemma_starts_before_bound(text@, j, text@.len() as int);
        }
        assert(map@ =~= byte_map(text@));
    }
    map
}

/// The styles the parser's events give the characters of `text`.
pub fn styles_from_events(text: &Vec<char>, events: &Vec<(MdEvent, usize, usize)>, base: Look) -> (r: Vec<Look>)
    requires
        byte_len(text@) < usize::MAX,
    ensures
        r@ == event_styles(text@, events@, base),
        r@.len() == text@.len(),
{
    let map = byte_map_of(text);
    let mut styles: Vec<Look> = Vec::new();
    let mut i: usize = 0;
    while i < text.len()
        invariant
            i <= text@.len(),
            styles@ =~= Seq::new(i as nat, |k: int| base),
        decreases text.len() - i,
    {
        styles.push(base);
        i = i + 1;
    }
    let mut stack: Vec<Look> = Vec::new();
    stack.push(base);
    assert(stack@ =~= seq![base]);
    let mut k: usize = 0;
    while k < events.len()
        invariant
            k <= events@.len(),
            map@ == byte_map(text@),
            (styles@, stack@) == walk(map@, text@.len(), events@, base, k as int),
            stack@.len() >= 1,
            styles@.len() == text@.len(),
        decreases events.len() - k,
    {
        let (ev, s, e) = events[k];
        let top = stack[stack.len() - 1];
        let open = match ev {
            MdEvent::OpenEmphasis => Some(
                top.add_modifier(Mods { bold: false, dim: false, italic: true, underlined: false, crossed_out: false }),
            ),
            MdEvent::OpenStrong => Some(
                top.add_modifier(Mods { bold: true, dim: false, italic: false, underlined: false, crossed_out: false }),
            ),
            MdEvent::OpenStrikethrough => Some(
                top.add_modifier(Mods { bold: false, dim: false, italic: false, underlined: false, crossed_out: true }),
            ),
            MdEvent::OpenCodeBlock => Some(top.bg(Hue::DarkGray).fg(Hue::White)),
            MdEvent::OpenLink => Some(
                top.fg(Hue::Green).add_modifier(
                    Mods { bold: false, dim: false, italic: false, underlined: true, crossed_out: false },
                ),
            ),
            MdEvent::OpenImage => Some(
                top.fg(Hue::Yellow).add_modifier(
                    Mods { bold: true, dim: false, italic: false, underlined: false, crossed_out: false },
                ),
            ),
            MdEvent::OpenHeading(level) => Some(crate::tui::markdown::heading_style_for_level(top, level)),
            MdEvent::OpenOther => Some(top),
            _ => None,
        };
        match open {
            Some(l) => {
                stack.push(l);
            },
            None => {
                if ev == MdEvent::Close {
                    if stack.len() > 1 {
                        stack.pop();
                    }
                } else {
                    let paint = match ev {
                        MdEvent::CodeSpan => Some(top.bg(Hue::DarkGray).fg(Hue::Yellow)),
                        MdEvent::TextRun | MdEvent::HtmlNode | MdEvent::InlineHtmlNode => Some(top),
                        MdEvent::TaskBox(checked) => Some(
                            if checked {
                                top.fg(Hue::Green).add_modifier(
                                    Mods { bold: false, dim: false, italic: false, underlined: false, crossed_out: true },
                                )
                            } else {
                                top.fg(Hue::Yellow).add_modifier(
                                    Mods { bold: false, dim: true, italic: false, underlined: false, crossed_out: false },
                                )
                            },
                        ),
                        MdEvent::FootnoteRef => Some(top.fg(Hue::Blue)),
                        _ => None,
                    };
                    match paint {
                        Some(p) => {
                            apply_style_for_byte_range(&mut styles, &map, s, e, p);
                        },
                        None => {},
                    }
                }
            },
        }
        k = k + 1;
    }
    styles
}

/// The runs of a segment's text: the indentation (the first `indent_len`
/// bytes of `segment`) in `base` when there is any, then the text's
/// characters in the styles the events, the emphasis markers, the list
/// prefix and the wikilinks give them, grouped into runs of one style.
pub open spec fn rendered(text: Seq<char>, indent_len: usize, segment: Seq<char>, base: Look) -> Seq<(Seq<char>, Look)> {
    let st = links_from(
        text,
        list_styled(text, markers_from(text, event_styles(text, md_events(text, MARKDOWN_OPTIONS), base), base, 0), base),
        base,
        0,
    );
    let indent = segment.take(indent_chars(segment, indent_len as int));
    (if indent_len > 0 {
        seq![(indent, base)]
    } else {
        Seq::empty()
    }) + style_runs(text, st)
}

fn prefix_of_bytes(s: &str, b: usize) -> (r: String)
    requires
        on_boundary(s@, b as int),
        byte_len(s@) <= usize::MAX,
    ensures
        r@ == s@.take(indent_chars(s@, b as int)),
{
    let cs = chars_of(s);
    let k = char_index_of_byte(s, b);
    let mut out: Vec<char> = Vec::new();
    let mut i: usize = 0;
    while i < k
        invariant
            i <= k <= cs@.len(),
            cs@ == s@,
            out@ =~= s@.take(i as int),
        decreases k - i,
    {
        out.push(cs[i]);
        i = i + 1;
    }
    string_of(&out)
}

/// Renders the text of a segment, its indentation given apart, as runs of
/// styled text.
pub fn render_with_prefix(text: &str, indent_len: usize, segment: &str, base: Look) -> (r: Vec<(String, Look)>)
    requires
        byte_len(text@) < usize::MAX,
        text@.len() <= usize::MAX / 8,
        byte_len(segment@) <= usize::MAX,
        on_boundary(segment@, indent_len as int),
    ensures
        runs_view(r@) == rendered(text@, indent_len, segment@, base),
{
    let chars = chars_of(text);
    let events = markdown_events(text, MARKDOWN_OPTIONS);
    let mut styles = styles_from_events(&chars, &events, base);
    highlight_markers(&chars, &mut styles, base);
    highlight_list_prefix(&chars, &mut styles, base);
    highlight_wikilinks(&chars, &mut styles, base);
    let mut out: Vec<(String, Look)> = Vec::new();
    if indent_len > 0 {
        out.push((prefix_of_bytes(segment, indent_len), base));
    }
    let mut spans = spans_from_chars_with_styles(&chars, &styles);
    let ghost head = out@;
    let ghost tail = spans@;
    out.append(&mut spans);
    assert(runs_view(out@) =~= runs_view(head) + runs_view(tail));
    out
}

/// The runs of a segment of a line: its leading whitespace kept apart, the
/// rest styled from the style the segment starts from (a blockquote's or a
/// code fence's).
pub open spec fn segment_runs(segment: Seq<char>, base: Look) -> Seq<(Seq<char>, Look)> {
    let k = lead(segment, CharSet::Whitespace) as int;
    rendered(segment.skip(k), byte_index(segment, k) as usize, segment, line_base(segment, base))
}

pub fn render_markdown_segment(segment: &str, base: Look) -> (r: Vec<(String, Look)>)
    requires
        byte_len(segment@) < usize::MAX,
        segment@.len() <= usize::MAX / 8,
    ensures
        runs_view(r@) == segment_runs(segment@, base),
{
    let cs = chars_of(segment);
    let k = lead_len(&cs, CharSet::Whitespace);
    proof {
        crate::text::lemma_lead_bound(segment@, CharSet::Whitespace);
    }
    let indent_len = char_to_byte_idx(segment, k);
    let styled = segment_base_style(segment, base);
    let mut rest: Vec<char> = Vec::new();
    let mut i = k;
    while i < cs.len()
        invariant
            k <= i <= cs@.len(),
            cs@ == segment@,
            rest@ =~= segment@.subrange(k as int, i as int),
        decreases cs.len() - i,
    {
        rest.push(cs[i]);
        i = i + 1;
    }
    assert(rest@ =~= segment@.skip(k as int));
    let text = string_of(&rest);
    proof {
        lemma_byte_len_skip(segment@, k as int);
        assert(byte_index(segment@, k as int) == byte_len(segment@.take(k as int))) by {
            if k as int == segment@.len() {
                assert(segment@.take(k as int) =~= segment@);
            }
        }
        assert(on_boundary(segment@, indent_len as int));
    }
    render_with_prefix(text.as_str(), indent_len, segment, styled)
}

proof fn lemma_byte_len_skip(s: Seq<char>, k: int)
    requires
        0 <= k <= s.len(),
    ensures
        byte_len(s.skip(k)) <= byte_len(s),
    decreases k,
{
    if k > 0 {
        lemma_byte_len_skip(s, k - 1);
        assert(s.skip(k - 1).drop_first() =~= s.skip(k));
        lemma_byte_len_first(s.skip(k - 1));
    } else {
        assert(s.skip(0) =~= s);
    }
}

proof fn lemma_byte_len_first(s: Seq<char>)
    requires
        s.len() > 0,
    ensures
        byte_len(s) == utf8_len(s[0]) + byte_len(s.drop_first()),
    decreases s.len(),
{
    if s.len() > 1 {
        lemma_byte_len_first(s.drop_last());
        assert(s.drop_last().drop_first() =~= s.drop_first().drop_last());
        assert(s.drop_first().last() == s.last());
        assert(s.drop_last()[0] == s[0]);
        assert(byte_len(s) == byte_len(s.drop_last()) + utf8_len(s.last()));
        assert(byte_len(s.drop_first()) == byte_len(s.drop_first().drop_last()) + utf8_len(s.drop_first().last()));
    } else {
        assert(s.drop_first().len() == 0);
        assert(s.drop_last().len() == 0);
        assert(byte_len(s.drop_last()) == 0);
        assert(byte_len(s.drop_first()) == 0);
        assert(s.last() == s[0]);
    }
}

} // verus!
