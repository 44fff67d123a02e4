//! The layout engine: a document, a viewport width, live form state and the
//! selected interactable index become positioned styled rows, a hit-map of
//! clickable regions, and a total height. A pure function of its inputs.
//!
//! Wrapping is character by character using display width — wide characters
//! count two columns — never at word boundaries. A wrapped interactable
//! yields one hitbox per row fragment, all sharing one logical index.

use vstd::prelude::*;

use crate::ast::{Alignment, Color, Document, Element, ElemV, FieldKind, FieldKindV, Line, LineKind, LineV, Style};
use crate::types::{FormState, FormStateV, Hitbox, HitboxV, hitboxes_view, Interactable, InteractableV};
use crate::width::{disp_width, display_width, seq_width};
use crate::strutil::{string_from_chars, str_chars, subvec};

verus! {

/// The columns one heading or divider level is indented: two per level past
/// the first.
pub open spec fn indent_of(depth: u8) -> nat {
    if depth >= 1 {
        ((depth - 1) * 2) as nat
    } else {
        0
    }
}

/// The default width of a text field with none of its own.
pub open spec fn default_field_width() -> nat {
    24
}

/// The next counter value; counters stop at the machine maximum.
pub open spec fn sat_inc(i: int) -> int {
    if i + 1 <= usize::MAX {
        i + 1
    } else {
        i
    }
}

/// A style as the terminal backend needs it: colors (`None` meaning the
/// terminal default), the three text flags, and reverse video.
#[derive(Debug, Clone, Copy, PartialEq, Eq)]
pub struct SpanStyle {
    pub fg: Option<Color>,
    pub bg: Option<Color>,
    pub bold: bool,
    pub italic: bool,
    pub underline: bool,
    pub reversed: bool,
}

/// A run of identically styled output text.
#[derive(Debug, Clone)]
pub struct RenderedSpan {
    pub text: String,
    pub style: SpanStyle,
}

/// View of a `RenderedSpan`.
pub struct SpanV {
    pub text: Seq<char>,
    pub style: SpanStyle,
}

impl View for RenderedSpan {
    type V = SpanV;

    open spec fn view(&self) -> SpanV {
        SpanV { text: self.text@, style: self.style }
    }
}

/// One output row.
#[derive(Debug, Clone)]
pub struct RenderedLine {
    pub spans: Vec<RenderedSpan>,
}

impl View for RenderedLine {
    type V = Seq<SpanV>;

    open spec fn view(&self) -> Seq<SpanV> {
        Seq::new(self.spans@.len(), |i: int| self.spans@[i]@)
    }
}

/// The whole rendered output: rows of styled spans.
#[derive(Debug, Clone)]
pub struct RenderedText {
    pub lines: Vec<RenderedLine>,
}

impl View for RenderedText {
    type V = Seq<Seq<SpanV>>;

    open spec fn view(&self) -> Seq<Seq<SpanV>> {
        Seq::new(self.lines@.len(), |i: int| self.lines@[i]@)
    }
}

/// What one full layout pass hands back: the output for the backend, the
/// hit-map, and the number of rows (saturated to `u16`).
pub struct RenderOutput<T> {
    pub content: T,
    pub hitboxes: Vec<Hitbox>,
    pub height: u16,
}

/// The style with no colors and no flags.
pub open spec fn plain_span_style() -> SpanStyle {
    SpanStyle { fg: None, bg: None, bold: false, italic: false, underline: false, reversed: false }
}

/// A document style carried into the output.
pub open spec fn conv_style(s: Style) -> SpanStyle {
    SpanStyle {
        fg: s.fg,
        bg: s.bg,
        bold: s.bold,
        italic: s.italic,
        underline: s.underline,
        reversed: false,
    }
}

/// The fixed color pair of a heading level.
pub open spec fn heading_span_style(level: u8) -> SpanStyle {
    let fgbg: (Color, Color) = if level == 1 {
        (Color { r: 0x22, g: 0x22, b: 0x22 }, Color { r: 0xbb, g: 0xbb, b: 0xbb })
    } else if level == 2 {
        (Color { r: 0x11, g: 0x11, b: 0x11 }, Color { r: 0x99, g: 0x99, b: 0x99 })
    } else {
        (Color { r: 0x00, g: 0x00, b: 0x00 }, Color { r: 0x77, g: 0x77, b: 0x77 })
    };
    SpanStyle {
        fg: Some(fgbg.0),
        bg: Some(fgbg.1),
        bold: false,
        italic: false,
        underline: false,
        reversed: false,
    }
}

/// The black-on-white style of form controls, reversed when selected.
pub open spec fn field_span_style(selected: bool) -> SpanStyle {
    SpanStyle {
        fg: Some(Color { r: 0, g: 0, b: 0 }),
        bg: Some(Color { r: 255, g: 255, b: 255 }),
        bold: false,
        italic: false,
        underline: false,
        reversed: selected,
    }
}

/// `n` spaces.
pub open spec fn spaces(n: nat) -> Seq<char> {
    Seq::new(n, |i: int| ' ')
}

/// `n` repetitions of one character.
pub open spec fn rep_char(c: char, n: nat) -> Seq<char> {
    Seq::new(n, |i: int| c)
}

/// The concatenated text content of a line: text runs and link labels.
pub open spec fn collect_text(es: Seq<ElemV>) -> Seq<char>
    decreases es.len(),
{
    if es.len() == 0 {
        Seq::empty()
    } else {
        collect_text(es.drop_last()) + (match es.last() {
            ElemV::Text(t) => t.text,
            ElemV::Link(l) => l.label,
            _ => Seq::<char>::empty(),
        })
    }
}

/// Text padded to a display width by its alignment; text at least as wide as
/// the target is left alone.
pub open spec fn pad_to_width(text: Seq<char>, width: nat, a: Alignment) -> Seq<char> {
    let tw = seq_width(text);
    if tw >= width {
        text
    } else {
        let pad = (width - tw) as nat;
        match a {
            Alignment::Left => text + spaces(pad),
            Alignment::Right => spaces(pad) + text,
            Alignment::Center => spaces(pad / 2) + text + spaces((pad - pad / 2) as nat),
        }
    }
}

/// The current value of a text field: the form state's, or the default.
pub open spec fn field_value(name: Seq<char>, default: Seq<char>, form: FormStateV) -> Seq<char> {
    if form.fields.contains_key(name) {
        form.fields[name]
    } else {
        default
    }
}

/// What a text field displays: its value truncated to the field width and
/// padded with spaces, or `*` repeated to the value's length when masked.
pub open spec fn text_field_display(value: Seq<char>, masked: bool, w: nat) -> Seq<char> {
    let d = if masked {
        rep_char('*', if value.len() <= w {
            value.len()
        } else {
            w
        })
    } else {
        if value.len() > w {
            value.take(w as int)
        } else {
            value
        }
    };
    d + spaces((w - d.len()) as nat)
}

/// Whether a checkbox shows checked: the form state's value, or the
/// document's default.
pub open spec fn checkbox_checked(name: Seq<char>, def: bool, form: FormStateV) -> bool {
    if form.checkboxes.contains_key(name) {
        form.checkboxes[name]
    } else {
        def
    }
}

/// Whether a radio shows checked: whether its group's selection is its
/// value, or the document's default when the group has none.
pub open spec fn radio_checked(name: Seq<char>, value: Seq<char>, def: bool, form: FormStateV) -> bool {
    if form.radios.contains_key(name) {
        form.radios[name] == value
    } else {
        def
    }
}

/// A span about to be wrapped: its text, style, and the interactable it
/// belongs to, if any, with that interactable's logical index.
pub struct WSpanV {
    pub text: Seq<char>,
    pub style: SpanStyle,
    pub inter: Option<(int, InteractableV)>,
}

/// The wrappable span one element becomes, and the next interactable index.
pub open spec fn elem_wspan(
    e: ElemV,
    form: FormStateV,
    sel: Option<usize>,
    idx: int,
    dfw: nat,
) -> (WSpanV, int) {
    match e {
        ElemV::Text(t) => (
            WSpanV { text: t.text, style: conv_style(t.style), inter: None },
            idx,
        ),
        ElemV::Link(l) => {
            let selected = sel matches Some(s) && s == idx;
            let st0 = conv_style(l.style);
            let style = SpanStyle { underline: true, reversed: selected, ..st0 };
            (
                WSpanV {
                    text: l.label,
                    style,
                    inter: Some((idx, InteractableV::Link { url: l.url, fields: l.fields })),
                },
                sat_inc(idx),
            )
        },
        ElemV::Field(f) => {
            let selected = sel matches Some(s) && s == idx;
            let style = field_span_style(selected);
            let w = match f.width {
                Some(w0) => w0 as nat,
                None => dfw,
            };
            match f.kind {
                FieldKindV::Text => (
                    WSpanV {
                        text: text_field_display(
                            field_value(f.name, f.default, form),
                            f.masked,
                            w,
                        ),
                        style,
                        inter: Some(
                            (
                                idx,
                                InteractableV::TextField {
                                    name: f.name,
                                    masked: f.masked,
                                    default: f.default,
                                },
                            ),
                        ),
                    },
                    sat_inc(idx),
                ),
                FieldKindV::Checkbox { checked } => (
                    WSpanV {
                        text: if checkbox_checked(f.name, checked, form) {
                            seq!['[', 'X', ']']
                        } else {
                            seq!['[', ' ', ']']
                        },
                        style,
                        inter: Some((idx, InteractableV::Checkbox { name: f.name })),
                    },
                    sat_inc(idx),
                ),
                FieldKindV::Radio { value, checked } => (
                    WSpanV {
                        text: if radio_checked(f.name, value, checked, form) {
                            seq!['(', 'X', ')']
                        } else {
                            seq!['(', ' ', ')']
                        },
                        style,
                        inter: Some((idx, InteractableV::Radio { name: f.name, value })),
                    },
                    sat_inc(idx),
                ),
            }
        },
        ElemV::Partial(p) => (
            WSpanV {
                text: seq!['[', 'p', 'a', 'r', 't', 'i', 'a', 'l', ':'] + p.url + seq![']'],
                style: plain_span_style(),
                inter: None,
            },
            idx,
        ),
    }
}

/// The wrappable spans of a line's elements, and the next interactable
/// index.
pub open spec fn line_wspans(
    es: Seq<ElemV>,
    form: FormStateV,
    sel: Option<usize>,
    idx: int,
    dfw: nat,
) -> (Seq<WSpanV>, int)
    decreases es.len(),
{
    if es.len() == 0 {
        (Seq::empty(), idx)
    } else {
        let f = elem_wspan(es[0], form, sel, idx, dfw);
        let r = line_wspans(es.drop_first(), form, sel, f.1, dfw);
        (seq![f.0] + r.0, r.1)
    }
}

/// How many characters of `cs` starting at `i` fit in `maxw` columns, and
/// the columns they take.
pub open spec fn take_width(cs: Seq<char>, i: int, maxw: nat) -> (nat, nat)
    decreases cs.len() - i,
{
    if i < 0 || i >= cs.len() {
        (0, 0)
    } else {
        let w = disp_width(cs[i]);
        if w > maxw {
            (0, 0)
        } else {
            let r = take_width(cs, i + 1, (maxw - w) as nat);
            ((r.0 + 1) as nat, (r.1 + w) as nat)
        }
    }
}

pub proof fn lemma_take_width(cs: Seq<char>, i: int, maxw: nat)
    requires
        0 <= i <= cs.len(),
    ensures
        take_width(cs, i, maxw).0 <= cs.len() - i,
        take_width(cs, i, maxw).1 <= maxw,
    decreases cs.len() - i,
{
    if i < cs.len() {
        let w = disp_width(cs[i]);
        if w <= maxw {
            lemma_take_width(cs, i + 1, (maxw - w) as nat);
        }
    }
}

/// The row a fresh output line starts with: the indent spaces, if any.
pub open spec fn init_row(indent: nat) -> Seq<SpanV> {
    if indent > 0 {
        seq![SpanV { text: spaces(indent), style: plain_span_style() }]
    } else {
        Seq::empty()
    }
}

/// The wrapping machine. Spans are packed onto the current row until no
/// further character fits; the row is then emitted and a new one begins with
/// the line's indentation. A chunk of an interactable span yields a hitbox
/// for its own row and column range. A character wider than a whole row is
/// placed alone at a row start. The final row is emitted if it holds
/// anything, or if the line produced no row at all.
pub open spec fn wrap(
    spans: Seq<WSpanV>,
    si: int,
    off: int,
    cw: nat,
    indent: nat,
    row: int,
    col: nat,
    cur: Seq<SpanV>,
    rows: Seq<Seq<SpanV>>,
    hbs: Seq<HitboxV>,
) -> (Seq<Seq<SpanV>>, Seq<HitboxV>)
    decreases
            spans.len() - si,
            (if 0 <= si < spans.len() {
                spans[si].text.len() - off
            } else {
                0
            }),
            col,
    when 0 <= si <= spans.len() && cw >= 1 && col <= cw && (si < spans.len() ==> 0 <= off
        <= spans[si].text.len())
    via wrap_dec
{
    if si >= spans.len() {
        if cur.len() > 0 || rows.len() == 0 {
            (rows.push(cur), hbs)
        } else {
            (rows, hbs)
        }
    } else if off >= spans[si].text.len() {
        wrap(spans, si + 1, 0, cw, indent, row, col, cur, rows, hbs)
    } else {
        let sp = spans[si];
        let tw = take_width(sp.text, off, (cw - col) as nat);
        if tw.0 == 0 {
            if col > 0 {
                wrap(spans, si, off, cw, indent, sat_inc(row), 0, init_row(indent), rows.push(cur), hbs)
            } else {
                let w1 = disp_width(sp.text[off]);
                let chunk = sp.text.subrange(off, off + 1);
                let newcol: nat = if col + w1 > cw {
                    cw
                } else {
                    (col + w1) as nat
                };
                let hbs1 = match sp.inter {
                    Some(iv) => hbs.push(
                        HitboxV {
                            line: row,
                            col_start: col + indent as int,
                            col_end: col + indent + w1 as int,
                            interactable: iv.1,
                            interactable_idx: iv.0,
                        },
                    ),
                    None => hbs,
                };
                wrap(
                    spans,
                    si,
                    off + 1,
                    cw,
                    indent,
                    row,
                    newcol,
                    cur.push(SpanV { text: chunk, style: sp.style }),
                    rows,
                    hbs1,
                )
            }
        } else {
            let chunk = sp.text.subrange(off, off + tw.0);
            let hbs1 = match sp.inter {
                Some(iv) => hbs.push(
                    HitboxV {
                        line: row,
                        col_start: col + indent as int,
                        col_end: col + indent + tw.1 as int,
                        interactable: iv.1,
                        interactable_idx: iv.0,
                    },
                ),
                None => hbs,
            };
            wrap(
                spans,
                si,
                off + tw.0,
                cw,
                indent,
                row,
                (col + tw.1) as nat,
                cur.push(SpanV { text: chunk, style: sp.style }),
                rows,
                hbs1,
            )
        }
    }
}

#[via_fn]
proof fn wrap_dec(
    spans: Seq<WSpanV>,
    si: int,
    off: int,
    cw: nat,
    indent: nat,
    row: int,
    col: nat,
    cur: Seq<SpanV>,
    rows: Seq<Seq<SpanV>>,
    hbs: Seq<HitboxV>,
) {
    if 0 <= si < spans.len() && 0 <= off < spans[si].text.len() {
        lemma_take_width(spans[si].text, off, (cw - col) as nat);
    }
}

/// The single row of a divider line.
pub open spec fn divider_row(ch: char, depth: u8, width: u16) -> Seq<SpanV> {
    let indent = indent_of(depth);
    let dw: nat = if width >= indent {
        (width - indent) as nat
    } else {
        0
    };
    (if indent > 0 {
        seq![SpanV { text: spaces(indent), style: plain_span_style() }]
    } else {
        Seq::<SpanV>::empty()
    }) + seq![SpanV { text: rep_char(ch, dw), style: plain_span_style() }]
}

/// The single row of a heading line: its text content padded to the width
/// by the line's alignment, in the level's color pair. Never wrapped, never
/// interactive.
pub open spec fn heading_row(lv: LineV, level: u8, width: u16) -> Seq<SpanV> {
    let indent = indent_of(lv.indent_depth);
    let cwidth: nat = if width >= indent {
        (width - indent) as nat
    } else {
        0
    };
    (if indent > 0 {
        seq![SpanV { text: spaces(indent), style: plain_span_style() }]
    } else {
        Seq::<SpanV>::empty()
    }) + seq![
        SpanV {
            text: pad_to_width(collect_text(lv.elements), cwidth, lv.alignment),
            style: heading_span_style(level),
        },
    ]
}

/// One document line's rows and hitboxes, given the interactable index and
/// absolute row the line starts at; returns them with the next index.
pub open spec fn render_line_spec(
    lv: LineV,
    width: u16,
    form: FormStateV,
    sel: Option<usize>,
    idx: int,
    row0: int,
    dfw: nat,
) -> (Seq<Seq<SpanV>>, Seq<HitboxV>, int) {
    match lv.kind {
        LineKind::Comment => (Seq::empty(), Seq::empty(), idx),
        LineKind::Divider(ch) => (
            seq![divider_row(ch, lv.indent_depth, width)],
            Seq::empty(),
            idx,
        ),
        LineKind::Heading(n) => (seq![heading_row(lv, n, width)], Seq::empty(), idx),
        LineKind::Normal => {
            let indent = indent_of(lv.indent_depth);
            let cw: nat = if width > indent {
                (width - indent) as nat
            } else {
                0
            };
            if cw == 0 {
                (
                    seq![seq![SpanV { text: Seq::empty(), style: plain_span_style() }]],
                    Seq::empty(),
                    idx,
                )
            } else {
                let ws = line_wspans(lv.elements, form, sel, idx, dfw);
                let wr = wrap(
                    ws.0,
                    0,
                    0,
                    cw,
                    indent,
                    row0,
                    0,
                    init_row(indent),
                    Seq::empty(),
                    Seq::empty(),
                );
                (wr.0, wr.1, ws.1)
            }
        },
    }
}

/// The rows and hitboxes of the lines of `d` from index `i` on, appended to
/// what came before.
pub open spec fn render_lines_spec(
    d: Seq<LineV>,
    i: int,
    width: u16,
    form: FormStateV,
    sel: Option<usize>,
    idx: int,
    rows: Seq<Seq<SpanV>>,
    hbs: Seq<HitboxV>,
    dfw: nat,
) -> (Seq<Seq<SpanV>>, Seq<HitboxV>)
    decreases d.len() - i,
{
    if i < 0 || i >= d.len() {
        (rows, hbs)
    } else {
        let r = render_line_spec(d[i], width, form, sel, idx, rows.len() as int, dfw);
        render_lines_spec(d, i + 1, width, form, sel, r.2, rows + r.0, hbs + r.1, dfw)
    }
}

/// The full layout of a document: every row and every hitbox, with absolute
/// row numbers — scrolling is applied later by the reader, not here.
pub open spec fn render_doc_spec(
    d: Seq<LineV>,
    width: u16,
    form: FormStateV,
    sel: Option<usize>,
    dfw: nat,
) -> (Seq<Seq<SpanV>>, Seq<HitboxV>) {
    render_lines_spec(d, 0, width, form, sel, 0, Seq::empty(), Seq::empty(), dfw)
}

// ---------------------------------------------------------------------------
// Exec layout
// ---------------------------------------------------------------------------

/// Saturating exec counter step matching `sat_inc`.
fn sat_inc_exec(i: usize) -> (r: usize)
    ensures
        r == sat_inc(i as int),
{
    if i < usize::MAX {
        i + 1
    } else {
        i
    }
}

/// `n` spaces, as characters.
fn spaces_exec(n: usize) -> (r: Vec<char>)
    ensures
        r@ == spaces(n as nat),
{
    let mut v: Vec<char> = Vec::new();
    let mut i: usize = 0;
    while i < n
        invariant
            i <= n,
            v@ =~= spaces(i as nat),
        decreases n - i,
    {
        v.push(' ');
        i = i + 1;
        proof {
            assert(v@ =~= spaces(i as nat));
        }
    }
    v
}

/// `n` repetitions of one character.
fn rep_char_exec(c: char, n: usize) -> (r: Vec<char>)
    ensures
        r@ == rep_char(c, n as nat),
{
    let mut v: Vec<char> = Vec::new();
    let mut i: usize = 0;
    while i < n
        invariant
            i <= n,
            v@ =~= rep_char(c, i as nat),
        decreases n - i,
    {
        v.push(c);
        i = i + 1;
        proof {
            assert(v@ =~= rep_char(c, i as nat));
        }
    }
    v
}

/// Appends the characters of `src` to `dst`.
fn append_chars(dst: &mut Vec<char>, src: &Vec<char>)
    ensures
        final(dst)@ == old(dst)@ + src@,
{
    let mut i: usize = 0;
    proof {
        assert(dst@ =~= old(dst)@ + src@.take(0));
    }
    while i < src.len()
        invariant
            i <= src@.len(),
            dst@ == old(dst)@ + src@.take(i as int),
        decreases src@.len() - i,
    {
        dst.push(src[i]);
        i = i + 1;
        proof {
            assert(dst@ =~= old(dst)@ + src@.take(i as int));
        }
    }
    proof {
        assert(src@.take(src@.len() as int) =~= src@);
    }
}

/// The text content of a line's elements.
fn collect_text_exec(es: &Vec<Element>) -> (r: Vec<char>)
    ensures
        r@ == collect_text(crate::parser::elems_view(es@)),
{
    let ghost ev = crate::parser::elems_view(es@);
    let mut v: Vec<char> = Vec::new();
    let mut i: usize = 0;
    proof {
        assert(ev.take(0) =~= Seq::<ElemV>::empty());
        assert(v@ =~= collect_text(ev.take(0)));
    }
    while i < es.len()
        invariant
            i <= es@.len(),
            ev == crate::parser::elems_view(es@),
            v@ == collect_text(ev.take(i as int)),
        decreases es@.len() - i,
    {
        match &es[i] {
            Element::Text(t) => {
                let cs = str_chars(t.text.as_str());
                append_chars(&mut v, &cs);
            },
            Element::Link(l) => {
                let cs = str_chars(l.label.as_str());
                append_chars(&mut v, &cs);
            },
            _ => {},
        }
        i = i + 1;
        proof {
            assert(ev.take(i as int).drop_last() =~= ev.take(i - 1));
            assert(ev.take(i as int).last() == es@[i - 1]@);
            assert(v@ =~= collect_text(ev.take(i as int)));
        }
    }
    proof {
        assert(ev.take(ev.len() as int) =~= ev);
    }
    v
}

proof fn lemma_seq_width_take_le(s: Seq<char>, i: int)
    requires
        0 <= i <= s.len(),
    ensures
        seq_width(s.take(i)) <= seq_width(s),
    decreases s.len() - i,
{
    if i < s.len() {
        assert(s.take(i + 1).drop_last() =~= s.take(i));
        assert(seq_width(s.take(i + 1)) == seq_width(s.take(i)) + disp_width(s[i]));
        lemma_seq_width_take_le(s, i + 1);
    } else {
        assert(s.take(i) =~= s);
    }
}

/// The display width of the characters, stopped at `cap`.
fn seq_width_capped(cs: &Vec<char>, cap: usize) -> (r: usize)
    requires
        cap <= 65535,
    ensures
        r == (if seq_width(cs@) >= cap {
            cap as nat
        } else {
            seq_width(cs@)
        }),
{
    if cap == 0 {
        return 0;
    }
    let mut i: usize = 0;
    let mut w: usize = 0;
    while i < cs.len()
        invariant
            i <= cs@.len(),
            0 < cap <= 65535,
            w == seq_width(cs@.take(i as int)),
            w < cap,
        decreases cs@.len() - i,
    {
        let d = display_width(cs[i]);
        proof {
            assert(cs@.take(i + 1).drop_last() =~= cs@.take(i as int));
            assert(cs@.take(i + 1).last() == cs@[i as int]);
        }
        w = w + d;
        i = i + 1;
        if w >= cap {
            proof {
                lemma_seq_width_take_le(cs@, i as int);
            }
            return cap;
        }
    }
    proof {
        assert(cs@.take(cs@.len() as int) =~= cs@);
    }
    w
}

/// Text padded to a display width by its alignment.
fn pad_exec(text: &Vec<char>, width: usize, a: Alignment) -> (r: Vec<char>)
    requires
        width <= 65535,
    ensures
        r@ == pad_to_width(text@, width as nat, a),
{
    let tw = seq_width_capped(text, width);
    if tw >= width {
        let r = subvec(text, 0, text.len());
        proof {
            assert(r@ =~= text@);
        }
        r
    } else {
        let pad = width - tw;
        match a {
            Alignment::Left => {
                let mut r = subvec(text, 0, text.len());
                let sp = spaces_exec(pad);
                append_chars(&mut r, &sp);
                proof {
                    assert(text@.subrange(0, text@.len() as int) =~= text@);
                    assert(r@ =~= pad_to_width(text@, width as nat, a));
                }
                r
            },
            Alignment::Right => {
                let mut r = spaces_exec(pad);
                append_chars(&mut r, text);
                proof {
                    assert(r@ =~= pad_to_width(text@, width as nat, a));
                }
                r
            },
            Alignment::Center => {
                let mut r = spaces_exec(pad / 2);
                append_chars(&mut r, text);
                let sp = spaces_exec(pad - pad / 2);
                append_chars(&mut r, &sp);
                proof {
                    assert(r@ =~= pad_to_width(text@, width as nat, a));
                }
                r
            },
        }
    }
}

/// An identical copy of a string list.
fn clone_strings(v: &Vec<String>) -> (r: Vec<String>)
    ensures
        r.deep_view() == v.deep_view(),
{
    let mut r: Vec<String> = Vec::new();
    let mut i: usize = 0;
    while i < v.len()
        invariant
            i <= v@.len(),
            r@.len() == i,
            forall|j: int| 0 <= j < i ==> (#[trigger] r@[j])@ == v@[j]@,
        decreases v@.len() - i,
    {
        r.push(v[i].clone());
        i = i + 1;
    }
    proof {
        assert(r.deep_view() =~~= v.deep_view());
    }
    r
}

/// An identical copy of an interactable.
fn clone_interactable(it: &Interactable) -> (r: Interactable)
    ensures
        r@ == it@,
{
    match it {
        Interactable::Link { url, fields } => {
            let r = Interactable::Link { url: url.clone(), fields: clone_strings(fields) };
            proof {
                assert(r@ == it@);
            }
            r
        },
        Interactable::TextField { name, masked, default } => Interactable::TextField {
            name: name.clone(),
            masked: *masked,
            default: default.clone(),
        },
        Interactable::Checkbox { name } => Interactable::Checkbox { name: name.clone() },
        Interactable::Radio { name, value } => Interactable::Radio {
            name: name.clone(),
            value: value.clone(),
        },
    }
}

/// An identical copy of an interactable, for other modules of the crate.
pub(crate) fn clone_interactable_pub(it: &Interactable) -> (r: Interactable)
    ensures
        r@ == it@,
{
    clone_interactable(it)
}

/// A span waiting to be wrapped.
struct WSpan {
    text: Vec<char>,
    style: SpanStyle,
    inter: Option<(usize, Interactable)>,
}

impl View for WSpan {
    type V = WSpanV;

    closed spec fn view(&self) -> WSpanV {
        WSpanV {
            text: self.text@,
            style: self.style,
            inter: match self.inter {
                Some((i, ref it)) => Some((i as int, it@)),
                None => None,
            },
        }
    }
}

/// The views of a span list.
spec fn wspans_view(ws: Seq<WSpan>) -> Seq<WSpanV> {
    Seq::new(ws.len(), |i: int| ws[i]@)
}

/// What a text field displays.
fn text_field_display_exec(value: &Vec<char>, masked: bool, w: usize) -> (r: Vec<char>)
    requires
        w <= 65535,
    ensures
        r@ == text_field_display(value@, masked, w as nat),
{
    let mut d: Vec<char> = if masked {
        let n = if value.len() <= w {
            value.len()
        } else {
            w
        };
        rep_char_exec('*', n)
    } else {
        if value.len() > w {
            subvec(value, 0, w)
        } else {
            subvec(value, 0, value.len())
        }
    };
    proof {
        if !masked && value@.len() <= w {
            assert(d@ =~= value@);
        }
        if !masked && value@.len() > w {
            assert(d@ =~= value@.take(w as int));
        }
    }
    let pad = w - d.len();
    let sp = spaces_exec(pad);
    append_chars(&mut d, &sp);
    proof {
        assert(d@ =~= text_field_display(value@, masked, w as nat));
    }
    d
}

/// The wrappable span of one element, and the next interactable index.
fn elem_wspan_exec(e: &Element, form: &FormState, sel: Option<usize>, idx: usize, dfw: u16) -> (r:
    (WSpan, usize))
    ensures
        ({
            let sp = elem_wspan(e@, form@, sel, idx as int, dfw as nat);
            r.0@ == sp.0 && r.1 == sp.1
        }),
{
    match e {
        Element::Text(t) => {
            let w = WSpan {
                text: str_chars(t.text.as_str()),
                style: SpanStyle {
                    fg: t.style.fg,
                    bg: t.style.bg,
                    bold: t.style.bold,
                    italic: t.style.italic,
                    underline: t.style.underline,
                    reversed: false,
                },
                inter: None,
            };
            (w, idx)
        },
        Element::Link(l) => {
            let selected = match sel {
                Some(s) => s == idx,
                None => false,
            };
            let style = SpanStyle {
                fg: l.style.fg,
                bg: l.style.bg,
                bold: l.style.bold,
                italic: l.style.italic,
                underline: true,
                reversed: selected,
            };
            let w = WSpan {
                text: str_chars(l.label.as_str()),
                style,
                inter: Some(
                    (
                        idx,
                        Interactable::Link { url: l.url.clone(), fields: clone_strings(&l.fields) },
                    ),
                ),
            };
            (w, sat_inc_exec(idx))
        },
        Element::Field(f) => {
            let selected = match sel {
                Some(s) => s == idx,
                None => false,
            };
            let style = SpanStyle {
                fg: Some(Color { r: 0, g: 0, b: 0 }),
                bg: Some(Color { r: 255, g: 255, b: 255 }),
                bold: false,
                italic: false,
                underline: false,
                reversed: selected,
            };
            let w: usize = match f.width {
                Some(w0) => w0 as usize,
                None => dfw as usize,
            };
            match &f.kind {
                FieldKind::Text => {
                    let value: Vec<char> = match form.fields.get(f.name.as_str()) {
                        Some(v) => str_chars(v.as_str()),
                        None => str_chars(f.default.as_str()),
                    };
                    let text = text_field_display_exec(&value, f.masked, w);
                    let ws = WSpan {
                        text,
                        style,
                        inter: Some(
                            (
                                idx,
                                Interactable::TextField {
                                    name: f.name.clone(),
                                    masked: f.masked,
                                    default: f.default.clone(),
                                },
                            ),
                        ),
                    };
                    (ws, sat_inc_exec(idx))
                },
                FieldKind::Checkbox { checked } => {
                    let is_checked = match form.checkboxes.get(f.name.as_str()) {
                        Some(b) => *b,
                        None => *checked,
                    };
                    let mut text: Vec<char> = Vec::new();
                    text.push('[');
                    text.push(if is_checked { 'X' } else { ' ' });
                    text.push(']');
                    proof {
                        if is_checked {
                            assert(text@ =~= seq!['[', 'X', ']']);
                        } else {
                            assert(text@ =~= seq!['[', ' ', ']']);
                        }
                    }
                    let ws = WSpan {
                        text,
                        style,
                        inter: Some((idx, Interactable::Checkbox { name: f.name.clone() })),
                    };
                    (ws, sat_inc_exec(idx))
                },
                FieldKind::Radio { value, checked } => {
                    let is_checked = match form.radios.get(f.name.as_str()) {
                        Some(sv) => crate::strutil::str_eq(sv.as_str(), value.as_str()),
                        None => *checked,
                    };
                    let mut text: Vec<char> = Vec::new();
                    text.push('(');
                    text.push(if is_checked { 'X' } else { ' ' });
                    text.push(')');
                    proof {
                        if is_checked {
                            assert(text@ =~= seq!['(', 'X', ')']);
                        } else {
                            assert(text@ =~= seq!['(', ' ', ')']);
                        }
                    }
                    let ws = WSpan {
                        text,
                        style,
                        inter: Some(
                            (
                                idx,
                                Interactable::Radio {
                                    name: f.name.clone(),
                                    value: value.clone(),
                                },
                            ),
                        ),
                    };
                    (ws, sat_inc_exec(idx))
                },
            }
        },
        Element::Partial(p) => {
            let mut text: Vec<char> = Vec::new();
            text.push('[');
            text.push('p');
            text.push('a');
            text.push('r');
            text.push('t');
            text.push('i');
            text.push('a');
            text.push('l');
            text.push(':');
            let cs = str_chars(p.url.as_str());
            append_chars(&mut text, &cs);
            text.push(']');
            proof {
                assert(text@ =~= seq!['[', 'p', 'a', 'r', 't', 'i', 'a', 'l', ':'] + p.url@
                    + seq![']']);
            }
            let ws = WSpan {
                text,
                style: SpanStyle {
                    fg: None,
                    bg: None,
                    bold: false,
                    italic: false,
                    underline: false,
                    reversed: false,
                },
                inter: None,
            };
            (ws, idx)
        },
    }
}

/// The wrappable spans of a line.
fn line_wspans_exec(
    es: &Vec<Element>,
    form: &FormState,
    sel: Option<usize>,
    idx0: usize,
    dfw: u16,
) -> (r: (Vec<WSpan>, usize))
    ensures
        ({
            let sp = line_wspans(
                crate::parser::elems_view(es@),
                form@,
                sel,
                idx0 as int,
                dfw as nat,
            );
            wspans_view(r.0@) == sp.0 && r.1 == sp.1
        }),
{
    let ghost ev = crate::parser::elems_view(es@);
    let mut out: Vec<WSpan> = Vec::new();
    let mut idx = idx0;
    let mut i: usize = 0;
    proof {
        assert(ev.skip(0) =~= ev);
        assert(wspans_view(out@) =~= Seq::<WSpanV>::empty());
        assert(wspans_view(out@) + line_wspans(ev, form@, sel, idx0 as int, dfw as nat).0
            =~= line_wspans(ev, form@, sel, idx0 as int, dfw as nat).0);
    }
    while i < es.len()
        invariant
            i <= es@.len(),
            ev == crate::parser::elems_view(es@),
            line_wspans(ev, form@, sel, idx0 as int, dfw as nat).0 == wspans_view(out@)
                + line_wspans(ev.skip(i as int), form@, sel, idx as int, dfw as nat).0,
            line_wspans(ev, form@, sel, idx0 as int, dfw as nat).1 == line_wspans(
                ev.skip(i as int),
                form@,
                sel,
                idx as int,
                dfw as nat,
            ).1,
        decreases es@.len() - i,
    {
        let ghost rest = ev.skip(i as int);
        proof {
            assert(rest[0] == es@[i as int]@);
            assert(rest.drop_first() =~= ev.skip(i + 1));
        }
        let ghost old_wv = wspans_view(out@);
        let (w, idx2) = elem_wspan_exec(&es[i], form, sel, idx, dfw);
        out.push(w);
        idx = idx2;
        i = i + 1;
        proof {
            assert(wspans_view(out@) =~= old_wv.push(out@[out@.len() - 1]@));
            assert(wspans_view(out@) + line_wspans(
                ev.skip(i as int),
                form@,
                sel,
                idx as int,
                dfw as nat,
            ).0 =~= line_wspans(ev, form@, sel, idx0 as int, dfw as nat).0);
        }
    }
    proof {
        assert(ev.skip(es@.len() as int) =~= Seq::<ElemV>::empty());
        assert(wspans_view(out@) =~= line_wspans(ev, form@, sel, idx0 as int, dfw as nat).0);
    }
    (out, idx)
}

/// How many characters from `off` fit in `maxw` columns, and their width.
fn take_width_exec(cs: &Vec<char>, off: usize, maxw: usize) -> (r: (usize, usize))
    requires
        off <= cs@.len(),
        maxw <= 65535,
    ensures
        r.0 == take_width(cs@, off as int, maxw as nat).0,
        r.1 == take_width(cs@, off as int, maxw as nat).1,
        r.1 <= maxw,
        off + r.0 <= cs@.len(),
{
    proof {
        lemma_take_width(cs@, off as int, maxw as nat);
    }
    let mut i = off;
    let mut w: usize = 0;
    while i < cs.len()
        invariant
            off <= i <= cs@.len(),
            maxw <= 65535,
            w <= maxw,
            take_width(cs@, off as int, maxw as nat) == ((i - off + take_width(
                cs@,
                i as int,
                (maxw - w) as nat,
            ).0) as nat, (w + take_width(cs@, i as int, (maxw - w) as nat).1) as nat),
        decreases cs@.len() - i,
    {
        let d = display_width(cs[i]);
        if w + d > maxw {
            proof {
                assert(take_width(cs@, i as int, (maxw - w) as nat).0 == 0);
            }
            return (i - off, w);
        }
        proof {
            lemma_take_width(cs@, i + 1, (maxw - w - d) as nat);
        }
        w = w + d;
        i = i + 1;
    }
    proof {
        assert(take_width(cs@, i as int, (maxw - w) as nat).0 == 0);
    }
    (i - off, w)
}

/// The views of a span row.
pub open spec fn row_view(s: Seq<RenderedSpan>) -> Seq<SpanV> {
    Seq::new(s.len(), |i: int| s[i]@)
}

/// The views of a row list.
pub open spec fn rows_view(s: Seq<RenderedLine>) -> Seq<Seq<SpanV>> {
    Seq::new(s.len(), |i: int| s[i]@)
}

/// A fresh output row: the indent spaces, if any.
fn init_row_exec(indent: usize) -> (r: Vec<RenderedSpan>)
    ensures
        row_view(r@) == init_row(indent as nat),
{
    let mut r: Vec<RenderedSpan> = Vec::new();
    if indent > 0 {
        let sp = spaces_exec(indent);
        r.push(
            RenderedSpan {
                text: string_from_chars(&sp),
                style: SpanStyle {
                    fg: None,
                    bg: None,
                    bold: false,
                    italic: false,
                    underline: false,
                    reversed: false,
                },
            },
        );
    }
    proof {
        assert(row_view(r@) =~= init_row(indent as nat));
    }
    r
}

/// Exec wrapping matching `wrap`, from a fresh row at absolute row `row0`.
#[verifier::rlimit(60)]
fn wrap_exec(spans: &Vec<WSpan>, cw: usize, indent: usize, row0: usize) -> (r: (
    Vec<RenderedLine>,
    Vec<Hitbox>,
))
    requires
        1 <= cw <= 65535,
        indent <= 510,
    ensures
        ({
            let sp = wrap(
                wspans_view(spans@),
                0,
                0,
                cw as nat,
                indent as nat,
                row0 as int,
                0,
                init_row(indent as nat),
                Seq::empty(),
                Seq::empty(),
            );
            rows_view(r.0@) == sp.0 && hitboxes_view(r.1@) == sp.1
        }),
{
    let ghost wsv = wspans_view(spans@);
    let ghost spwrap = wrap(
        wsv,
        0,
        0,
        cw as nat,
        indent as nat,
        row0 as int,
        0,
        init_row(indent as nat),
        Seq::empty(),
        Seq::empty(),
    );
    let mut si: usize = 0;
    let mut off: usize = 0;
    let mut col: usize = 0;
    let mut row: usize = row0;
    let mut cur: Vec<RenderedSpan> = init_row_exec(indent);
    let mut rows: Vec<RenderedLine> = Vec::new();
    let mut hbs: Vec<Hitbox> = Vec::new();
    proof {
        assert(rows_view(rows@) =~= Seq::<Seq<SpanV>>::empty());
        assert(hitboxes_view(hbs@) =~= Seq::<HitboxV>::empty());
    }
    while si < spans.len()
        invariant
            wsv == wspans_view(spans@),
            si <= spans@.len(),
            si < spans@.len() ==> off <= spans@[si as int].text@.len(),
            col <= cw,
            1 <= cw <= 65535,
            indent <= 510,
            spwrap == wrap(
                wsv,
                si as int,
                off as int,
                cw as nat,
                indent as nat,
                row as int,
                col as nat,
                row_view(cur@),
                rows_view(rows@),
                hitboxes_view(hbs@),
            ),
        decreases
                spans@.len() - si,
                (if si < spans@.len() {
                    spans@[si as int].text@.len() - off
                } else {
                    0
                }),
                col,
    {
        let ghost g_si = si as int;
        let ghost g_off = off as int;
        let ghost g_col = col as nat;
        let ghost g_row = row as int;
        let ghost g_cur = row_view(cur@);
        let ghost g_rows = rows_view(rows@);
        let ghost g_hbs = hitboxes_view(hbs@);
        if off >= spans[si].text.len() {
            si = si + 1;
            off = 0;
            proof {
                assert(wrap(wsv, g_si, g_off, cw as nat, indent as nat, g_row, g_col, g_cur,
                    g_rows, g_hbs) == wrap(wsv, si as int, 0, cw as nat, indent as nat, g_row,
                    g_col, g_cur, g_rows, g_hbs));
            }
            continue;
        }
        let (cnt, wdt) = take_width_exec(&spans[si].text, off, cw - col);
        if cnt == 0 {
            if col > 0 {
                let done = RenderedLine { spans: cur };
                rows.push(done);
                cur = init_row_exec(indent);
                row = sat_inc_exec(row);
                col = 0;
                proof {
                    assert(rows_view(rows@) =~= g_rows.push(g_cur));
                    assert(wrap(wsv, g_si, g_off, cw as nat, indent as nat, g_row, g_col, g_cur,
                        g_rows, g_hbs) == wrap(wsv, si as int, off as int, cw as nat,
                        indent as nat, row as int, 0, row_view(cur@), rows_view(rows@), g_hbs));
                }
            } else {
                let w1 = display_width(spans[si].text[off]);
                let chunk = subvec(&spans[si].text, off, off + 1);
                match &spans[si].inter {
                    Some((ix, it)) => {
                        let hb = Hitbox {
                            line: row,
                            col_start: col + indent,
                            col_end: col + indent + w1,
                            interactable: clone_interactable(it),
                            interactable_idx: *ix,
                        };
                        hbs.push(hb);
                        proof {
                            assert(hitboxes_view(hbs@) =~= g_hbs.push(hbs@[hbs@.len() - 1]@));
                        }
                    },
                    None => {},
                }
                cur.push(
                    RenderedSpan { text: string_from_chars(&chunk), style: spans[si].style },
                );
                col = if col + w1 > cw {
                    cw
                } else {
                    col + w1
                };
                off = off + 1;
                proof {
                    assert(row_view(cur@) =~= g_cur.push(
                        SpanV { text: chunk@, style: spans@[g_si]@.style },
                    ));
                    assert(wrap(wsv, g_si, g_off, cw as nat, indent as nat, g_row, g_col, g_cur,
                        g_rows, g_hbs) == wrap(wsv, si as int, off as int, cw as nat,
                        indent as nat, row as int, col as nat, row_view(cur@), rows_view(rows@),
                        hitboxes_view(hbs@)));
                }
            }
        } else {
            let chunk = subvec(&spans[si].text, off, off + cnt);
            match &spans[si].inter {
                Some((ix, it)) => {
                    let hb = Hitbox {
                        line: row,
                        col_start: col + indent,
                        col_end: col + indent + wdt,
                        interactable: clone_interactable(it),
                        interactable_idx: *ix,
                    };
                    hbs.push(hb);
                    proof {
                        assert(hitboxes_view(hbs@) =~= g_hbs.push(hbs@[hbs@.len() - 1]@));
                    }
                },
                None => {},
            }
            cur.push(RenderedSpan { text: string_from_chars(&chunk), style: spans[si].style });
            col = col + wdt;
            off = off + cnt;
            proof {
                assert(row_view(cur@) =~= g_cur.push(
                    SpanV { text: chunk@, style: spans@[g_si]@.style },
                ));
                assert(wrap(wsv, g_si, g_off, cw as nat, indent as nat, g_row, g_col, g_cur,
                    g_rows, g_hbs) == wrap(wsv, si as int, off as int, cw as nat, indent as nat,
                    row as int, col as nat, row_view(cur@), rows_view(rows@),
                    hitboxes_view(hbs@)));
            }
        }
    }
    if cur.len() > 0 || rows.len() == 0 {
        let done = RenderedLine { spans: cur };
        let ghost g_rows = rows_view(rows@);
        rows.push(done);
        proof {
            assert(rows_view(rows@) =~= g_rows.push(rows@[rows@.len() - 1]@));
        }
    }
    (rows, hbs)
}

/// One line's rendered rows and hitboxes, with the next interactable index.
fn render_line_exec(
    line: &Line,
    width: u16,
    form: &FormState,
    sel: Option<usize>,
    idx: usize,
    row0: usize,
    dfw: u16,
) -> (r: (Vec<RenderedLine>, Vec<Hitbox>, usize))
    ensures
        ({
            let sp = render_line_spec(
                line@,
                width,
                form@,
                sel,
                idx as int,
                row0 as int,
                dfw as nat,
            );
            rows_view(r.0@) == sp.0 && hitboxes_view(r.1@) == sp.1 && r.2 == sp.2
        }),
{
    proof {
        assert(line@.elements =~= crate::parser::elems_view(line.elements@));
    }
    match line.kind {
        LineKind::Comment => {
            let r: (Vec<RenderedLine>, Vec<Hitbox>, usize) = (Vec::new(), Vec::new(), idx);
            proof {
                assert(rows_view(r.0@) =~= Seq::<Seq<SpanV>>::empty());
                assert(hitboxes_view(r.1@) =~= Seq::<HitboxV>::empty());
            }
            r
        },
        LineKind::Divider(ch) => {
            let ind: usize = if line.indent_depth >= 1 {
                ((line.indent_depth - 1) as usize) * 2
            } else {
                0
            };
            let dw: usize = if (width as usize) >= ind {
                (width as usize) - ind
            } else {
                0
            };
            let mut spans: Vec<RenderedSpan> = init_row_exec(ind);
            let glyphs = rep_char_exec(ch, dw);
            spans.push(
                RenderedSpan {
                    text: string_from_chars(&glyphs),
                    style: SpanStyle {
                        fg: None,
                        bg: None,
                        bold: false,
                        italic: false,
                        underline: false,
                        reversed: false,
                    },
                },
            );
            let mut rows: Vec<RenderedLine> = Vec::new();
            rows.push(RenderedLine { spans });
            let r = (rows, Vec::new(), idx);
            proof {
                assert(row_view(r.0@[0].spans@) =~= divider_row(ch, line.indent_depth, width));
                assert(rows_view(r.0@) =~= seq![divider_row(ch, line.indent_depth, width)]);
                assert(hitboxes_view(r.1@) =~= Seq::<HitboxV>::empty());
            }
            r
        },
        LineKind::Heading(n) => {
            let ind: usize = if line.indent_depth >= 1 {
                ((line.indent_depth - 1) as usize) * 2
            } else {
                0
            };
            let cwidth: usize = if (width as usize) >= ind {
                (width as usize) - ind
            } else {
                0
            };
            let content = collect_text_exec(&line.elements);
            let padded = pad_exec(&content, cwidth, line.alignment);
            let hstyle = if n == 1 {
                SpanStyle {
                    fg: Some(Color { r: 0x22, g: 0x22, b: 0x22 }),
                    bg: Some(Color { r: 0xbb, g: 0xbb, b: 0xbb }),
                    bold: false,
                    italic: false,
                    underline: false,
                    reversed: false,
                }
            } else if n == 2 {
                SpanStyle {
                    fg: Some(Color { r: 0x11, g: 0x11, b: 0x11 }),
                    bg: Some(Color { r: 0x99, g: 0x99, b: 0x99 }),
                    bold: false,
                    italic: false,
                    underline: false,
                    reversed: false,
                }
            } else {
                SpanStyle {
                    fg: Some(Color { r: 0x00, g: 0x00, b: 0x00 }),
                    bg: Some(Color { r: 0x77, g: 0x77, b: 0x77 }),
                    bold: false,
                    italic: false,
                    underline: false,
                    reversed: false,
                }
            };
            let mut spans: Vec<RenderedSpan> = init_row_exec(ind);
            spans.push(RenderedSpan { text: string_from_chars(&padded), style: hstyle });
            let mut rows: Vec<RenderedLine> = Vec::new();
            rows.push(RenderedLine { spans });
            let r = (rows, Vec::new(), idx);
            proof {
                assert(row_view(r.0@[0].spans@) =~= heading_row(line@, n, width));
                assert(rows_view(r.0@) =~= seq![heading_row(line@, n, width)]);
                assert(hitboxes_view(r.1@) =~= Seq::<HitboxV>::empty());
            }
            r
        },
        LineKind::Normal => {
            let ind: usize = if line.indent_depth >= 1 {
                ((line.indent_depth - 1) as usize) * 2
            } else {
                0
            };
            let cw: usize = if (width as usize) > ind {
                (width as usize) - ind
            } else {
                0
            };
            if cw == 0 {
                let mut spans: Vec<RenderedSpan> = Vec::new();
                spans.push(
                    RenderedSpan {
                        text: String::new(),
                        style: SpanStyle {
                            fg: None,
                            bg: None,
                            bold: false,
                            italic: false,
                            underline: false,
                            reversed: false,
                        },
                    },
                );
                let mut rows: Vec<RenderedLine> = Vec::new();
                rows.push(RenderedLine { spans });
                let r = (rows, Vec::new(), idx);
                proof {
                    assert(row_view(r.0@[0].spans@) =~= seq![
                        SpanV { text: Seq::empty(), style: plain_span_style() },
                    ]);
                    assert(rows_view(r.0@) =~= seq![
                        seq![SpanV { text: Seq::empty(), style: plain_span_style() }],
                    ]);
                    assert(hitboxes_view(r.1@) =~= Seq::<HitboxV>::empty());
                }
                r
            } else {
                let (ws, idx2) = line_wspans_exec(&line.elements, form, sel, idx, dfw);
                let (rows, hbs) = wrap_exec(&ws, cw, ind, row0);
                (rows, hbs, idx2)
            }
        },
    }
}

/// Renders a whole document with a given default field width: every row and
/// every hitbox, row numbers absolute within the rendered document. A pure
/// function of its inputs.
pub fn render_document_with(
    doc: &Document,
    width: u16,
    form_state: &FormState,
    selected: Option<usize>,
    dfw: u16,
) -> (r: RenderOutput<RenderedText>)
    ensures
        ({
            let sp = render_doc_spec(doc@, width, form_state@, selected, dfw as nat);
            r.content@ == sp.0 && hitboxes_view(r.hitboxes@) == sp.1 && r.height as int == (
            if sp.0.len() <= u16::MAX {
                sp.0.len() as int
            } else {
                u16::MAX as int
            })
        }),
{
    let ghost dv = doc@;
    let ghost fv = form_state@;
    let mut rows: Vec<RenderedLine> = Vec::new();
    let mut hbs: Vec<Hitbox> = Vec::new();
    let mut idx: usize = 0;
    let mut k: usize = 0;
    proof {
        assert(rows_view(rows@) =~= Seq::<Seq<SpanV>>::empty());
        assert(hitboxes_view(hbs@) =~= Seq::<HitboxV>::empty());
    }
    while k < doc.lines.len()
        invariant
            k <= doc.lines@.len(),
            dv == doc@,
            fv == form_state@,
            render_doc_spec(dv, width, fv, selected, dfw as nat) == render_lines_spec(
                dv,
                k as int,
                width,
                fv,
                selected,
                idx as int,
                rows_view(rows@),
                hitboxes_view(hbs@),
                dfw as nat,
            ),
        decreases doc.lines@.len() - k,
    {
        proof {
            assert(dv[k as int] == doc.lines@[k as int]@);
        }
        let row0 = rows.len();
        let (mut lrows, mut lhbs, idx2) = render_line_exec(
            &doc.lines[k],
            width,
            form_state,
            selected,
            idx,
            row0,
            dfw,
        );
        let ghost g_rows = rows_view(rows@);
        let ghost g_hbs = hitboxes_view(hbs@);
        let ghost g_lrows = rows_view(lrows@);
        let ghost g_lhbs = hitboxes_view(lhbs@);
        rows.append(&mut lrows);
        hbs.append(&mut lhbs);
        idx = idx2;
        k = k + 1;
        proof {
            assert(rows_view(rows@) =~= g_rows + g_lrows);
            assert(hitboxes_view(hbs@) =~= g_hbs + g_lhbs);
        }
    }
    let height: u16 = if rows.len() <= 65535 {
        rows.len() as u16
    } else {
        65535
    };
    let content = RenderedText { lines: rows };
    proof {
        assert(content@ =~= rows_view(content.lines@));
    }
    RenderOutput { content, hitboxes: hbs, height }
}

/// Renders a whole document with the default field width of 24 columns.
pub fn render_document(
    doc: &Document,
    width: u16,
    form_state: &FormState,
    selected: Option<usize>,
) -> (r: RenderOutput<RenderedText>)
    ensures
        ({
            let sp = render_doc_spec(doc@, width, form_state@, selected, default_field_width());
            r.content@ == sp.0 && hitboxes_view(r.hitboxes@) == sp.1 && r.height as int == (
            if sp.0.len() <= u16::MAX {
                sp.0.len() as int
            } else {
                u16::MAX as int
            })
        }),
{
    render_document_with(doc, width, form_state, selected, 24)
}

} // verus!
