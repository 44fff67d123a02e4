//! The serializer: `Document` back to markup text, the inverse of the parser
//! for every document the parser can produce. Style and alignment markers are
//! emitted only on change relative to the preceding emitted state; text is
//! escaped so that reparsing cannot mistake it for markup.

use vstd::prelude::*;

use crate::ast::{
    Alignment, Color, Document, Element, ElemV, Field, FieldKind, FieldKindV, FieldV, Line,
    LineKind, LineV, LinkElement, LinkV, Partial, PartialV, Style, StyledText, TextV,
};
use crate::digits::{all_digits, digit_val, digits_val, hex_digit_val, is_digit, parse_uint_spec};
use crate::parser::{
    color_of, current_style, flush_acc, flush_fta, init_state, parse_doc, parse_line_spec,
    parse_lines, scan, scanned_line, split_lines, strip_cr, ParseState,
};
use crate::strutil::{str_chars, str_eq, string_from_chars};
use vstd::arithmetic::div_mod::{lemma_fundamental_div_mod, lemma_fundamental_div_mod_converse};

verus! {

/// The emitted-so-far style and alignment the serializer tracks.
#[derive(Debug, Clone, Copy, PartialEq, Eq)]
pub struct SerState {
    pub fg: Option<Color>,
    pub bg: Option<Color>,
    pub bold: bool,
    pub italic: bool,
    pub underline: bool,
    pub alignment: Alignment,
}

/// The serializer's starting state: everything default.
pub open spec fn init_ser_state() -> SerState {
    SerState {
        fg: None,
        bg: None,
        bold: false,
        italic: false,
        underline: false,
        alignment: Alignment::Left,
    }
}

/// One escaped character: backslash and backtick are escaped so text
/// reparses as itself, and `<` so that `` `< `` can never appear by accident.
pub open spec fn esc_char(c: char) -> Seq<char> {
    if c == '\\' {
        seq!['\\', '\\']
    } else if c == '`' {
        seq!['\\', '`']
    } else if c == '<' {
        seq!['\\', '<']
    } else {
        seq![c]
    }
}

/// Escaped text.
pub open spec fn esc_text(s: Seq<char>) -> Seq<char>
    decreases s.len(),
{
    if s.len() == 0 {
        Seq::empty()
    } else {
        esc_text(s.drop_last()) + esc_char(s.last())
    }
}

/// The character of one decimal digit.
pub open spec fn dec_digit_char(n: nat) -> char {
    if n == 0 {
        '0'
    } else if n == 1 {
        '1'
    } else if n == 2 {
        '2'
    } else if n == 3 {
        '3'
    } else if n == 4 {
        '4'
    } else if n == 5 {
        '5'
    } else if n == 6 {
        '6'
    } else if n == 7 {
        '7'
    } else if n == 8 {
        '8'
    } else {
        '9'
    }
}

/// The decimal digits of `n`, most significant first.
pub open spec fn dec_digits(n: nat) -> Seq<char>
    decreases n,
{
    if n < 10 {
        seq![dec_digit_char(n)]
    } else {
        dec_digits(n / 10) + seq![dec_digit_char(n % 10)]
    }
}

/// The character of one hexadecimal nibble, lower case.
pub open spec fn hex_nibble_char(n: nat) -> char {
    if n < 10 {
        dec_digit_char(n)
    } else if n == 10 {
        'a'
    } else if n == 11 {
        'b'
    } else if n == 12 {
        'c'
    } else if n == 13 {
        'd'
    } else if n == 14 {
        'e'
    } else {
        'f'
    }
}

/// A color re-encoded the way the parser decodes it: a pure gray whose level
/// survives the 0–99 quantization as `g` plus two decimal digits, anything
/// else as three rounded hex nibbles.
pub open spec fn color_code(c: Color) -> Seq<char> {
    if c.r == c.g && c.g == c.b && ((((c.r as nat) * 99 + 127) / 255) * 255) / 99 == c.r {
        let pct = ((c.r as nat) * 99 + 127) / 255;
        seq!['g', dec_digit_char(pct / 10), dec_digit_char(pct % 10)]
    } else {
        seq![
            hex_nibble_char(((c.r as nat) + 8) / 17),
            hex_nibble_char(((c.g as nat) + 8) / 17),
            hex_nibble_char(((c.b as nat) + 8) / 17),
        ]
    }
}

/// The marker for one toggled flag, when it differs.
pub open spec fn flag_delta(cur: bool, t: bool, m: char) -> Seq<char> {
    if cur != t {
        seq!['`', m]
    } else {
        Seq::<char>::empty()
    }
}

/// The marker that sets or clears the foreground, when it differs.
pub open spec fn fg_delta(cur: Option<Color>, t: Option<Color>) -> Seq<char> {
    if cur != t {
        match t {
            Some(c) => seq!['`', 'F'] + color_code(c),
            None => seq!['`', 'f'],
        }
    } else {
        Seq::<char>::empty()
    }
}

/// The marker that sets or clears the background, when it differs.
pub open spec fn bg_delta(cur: Option<Color>, t: Option<Color>) -> Seq<char> {
    if cur != t {
        match t {
            Some(c) => seq!['`', 'B'] + color_code(c),
            None => seq!['`', 'b'],
        }
    } else {
        Seq::<char>::empty()
    }
}

/// The markers that take the emitted state to the target style, each emitted
/// only when its component differs.
pub open spec fn ser_style_delta(st: SerState, t: Style) -> (Seq<char>, SerState) {
    (
        flag_delta(st.bold, t.bold, '!') + flag_delta(st.italic, t.italic, '*') + flag_delta(
            st.underline,
            t.underline,
            '_',
        ) + fg_delta(st.fg, t.fg) + bg_delta(st.bg, t.bg),
        SerState {
            fg: t.fg,
            bg: t.bg,
            bold: t.bold,
            italic: t.italic,
            underline: t.underline,
            ..st
        },
    )
}

/// Field-specifier or field-name lists joined with `|`.
pub open spec fn join_pipe(fs: Seq<Seq<char>>) -> Seq<char>
    decreases fs.len(),
{
    if fs.len() == 0 {
        Seq::empty()
    } else if fs.len() == 1 {
        fs[0]
    } else {
        join_pipe(fs.drop_last()) + seq!['|'] + fs.last()
    }
}

pub open spec fn seq_contains(s: Seq<char>, c: char) -> bool {
    exists|i: int| 0 <= i < s.len() && s[i] == c
}

/// A serialized link: label (omitted when equal to the url), url and field
/// specifiers are written raw — the parser never unescapes inside a link.
pub open spec fn ser_link(l: LinkV) -> Seq<char> {
    seq!['`', '['] + (if l.label != l.url {
        l.label + seq!['`']
    } else {
        Seq::<char>::empty()
    }) + l.url + (if l.fields.len() > 0 {
        seq!['`'] + join_pipe(l.fields)
    } else {
        Seq::<char>::empty()
    }) + seq![']']
}

/// A serialized field. A text field always carries its `` ` `` before the
/// default, and a name holding `|` without a width gets a bare leading `|`,
/// so that reparsing recovers the same name, width and default.
pub open spec fn ser_field(f: FieldV) -> Seq<char> {
    match f.kind {
        FieldKindV::Text => {
            let wpart = match f.width {
                Some(w) => dec_digits(w as nat) + seq!['|'],
                None => if seq_contains(f.name, '|') {
                    seq!['|']
                } else {
                    Seq::<char>::empty()
                },
            };
            seq!['`', '<'] + (if f.masked {
                seq!['!']
            } else {
                Seq::<char>::empty()
            }) + wpart + f.name + seq!['`'] + f.default + seq!['>']
        },
        FieldKindV::Checkbox { checked } => {
            seq!['`', '<', '?', '|'] + f.name + seq!['|'] + (if checked {
                seq!['|', '*']
            } else {
                Seq::<char>::empty()
            }) + seq!['`'] + f.default + seq!['>']
        },
        FieldKindV::Radio { value, checked } => {
            seq!['`', '<', '^', '|'] + f.name + seq!['|'] + value + (if checked {
                seq!['|', '*']
            } else {
                Seq::<char>::empty()
            }) + seq!['`'] + f.default + seq!['>']
        },
    }
}

/// A serialized transclusion reference.
pub open spec fn ser_partial(p: PartialV) -> Seq<char> {
    seq!['`', '{'] + p.url + (if p.refresh is Some || p.fields.len() > 0 {
        seq!['`'] + (match p.refresh {
            Some(r) => dec_digits(r as nat),
            None => Seq::<char>::empty(),
        }) + (if p.fields.len() > 0 {
            seq!['`'] + join_pipe(p.fields)
        } else {
            Seq::<char>::empty()
        })
    } else {
        Seq::<char>::empty()
    }) + seq!['}']
}

/// One serialized element, threading the emitted style.
pub open spec fn ser_elem(e: ElemV, st: SerState) -> (Seq<char>, SerState) {
    match e {
        ElemV::Text(t) => {
            let d = ser_style_delta(st, t.style);
            (d.0 + esc_text(t.text), d.1)
        },
        ElemV::Link(l) => {
            let d = ser_style_delta(st, l.style);
            (d.0 + ser_link(l), d.1)
        },
        ElemV::Field(f) => (ser_field(f), st),
        ElemV::Partial(p) => (ser_partial(p), st),
    }
}

/// A line's serialized elements, left to right.
pub open spec fn ser_elems(es: Seq<ElemV>, st: SerState) -> (Seq<char>, SerState)
    decreases es.len(),
{
    if es.len() == 0 {
        (Seq::<char>::empty(), st)
    } else {
        let f = ser_elem(es[0], st);
        let r = ser_elems(es.drop_first(), f.1);
        (f.0 + r.0, r.1)
    }
}

/// `n` repetitions of `>`.
pub open spec fn gt_reps(n: nat) -> Seq<char>
    decreases n,
{
    if n == 0 {
        Seq::empty()
    } else {
        gt_reps((n - 1) as nat) + seq!['>']
    }
}

/// The alignment marker for a line whose alignment differs from the state.
pub open spec fn align_marker(a: Alignment) -> Seq<char> {
    match a {
        Alignment::Left => seq!['`', 'a'],
        Alignment::Center => seq!['`', 'c'],
        Alignment::Right => seq!['`', 'r'],
    }
}

/// One serialized line. A normal line whose first character would be a
/// structural marker, or a heading whose body would begin with another `>`,
/// is shielded with a leading `\`, which the parser strips again.
pub open spec fn ser_line(lv: LineV, st: SerState) -> (Seq<char>, SerState) {
    match lv.kind {
        LineKind::Comment => (
            seq!['#'] + (if lv.elements.len() > 0 {
                match lv.elements[0] {
                    ElemV::Text(t) => t.text,
                    _ => Seq::<char>::empty(),
                }
            } else {
                Seq::<char>::empty()
            }),
            st,
        ),
        LineKind::Divider(ch) => (
            seq!['-'] + (if ch != '\u{2500}' {
                seq![ch]
            } else {
                Seq::<char>::empty()
            }),
            st,
        ),
        LineKind::Heading(n) => {
            let amark = if lv.alignment != st.alignment {
                align_marker(lv.alignment)
            } else {
                Seq::<char>::empty()
            };
            let st1 = SerState { alignment: lv.alignment, ..st };
            let body = ser_elems(lv.elements, st1);
            let shield = if amark.len() == 0 && body.0.len() > 0 && body.0[0] == '>' {
                seq!['\\']
            } else {
                Seq::<char>::empty()
            };
            (gt_reps(n as nat) + amark + shield + body.0, body.1)
        },
        LineKind::Normal => {
            let amark = if lv.alignment != st.alignment {
                align_marker(lv.alignment)
            } else {
                Seq::<char>::empty()
            };
            let st1 = SerState { alignment: lv.alignment, ..st };
            let body = ser_elems(lv.elements, st1);
            let shield = if amark.len() == 0 && body.0.len() > 0 && (body.0[0] == '#' || body.0[0]
                == '-' || body.0[0] == '>') {
                seq!['\\']
            } else {
                Seq::<char>::empty()
            };
            (amark + shield + body.0, body.1)
        },
    }
}

/// The serialized lines from index `i` on, `\n`-separated.
pub open spec fn ser_lines_from(d: Seq<LineV>, i: int, st: SerState) -> Seq<char>
    decreases d.len() - i,
{
    if i < 0 || i >= d.len() {
        Seq::empty()
    } else {
        let r = ser_line(d[i], st);
        let sep = if i > 0 {
            seq!['\n']
        } else {
            Seq::<char>::empty()
        };
        sep + r.0 + ser_lines_from(d, i + 1, r.1)
    }
}

/// The serialized form of a whole document.
pub open spec fn ser_doc(d: Seq<LineV>) -> Seq<char> {
    ser_lines_from(d, 0, init_ser_state())
}

// ---------------------------------------------------------------------------
// Exec serializer
// ---------------------------------------------------------------------------

fn opt_color_eq(a: &Option<Color>, b: &Option<Color>) -> (r: bool)
    ensures
        r == (*a == *b),
{
    match (a, b) {
        (None, None) => true,
        (Some(x), Some(y)) => x.r == y.r && x.g == y.g && x.b == y.b,
        _ => false,
    }
}

fn align_eq(a: Alignment, b: Alignment) -> (r: bool)
    ensures
        r == (a == b),
{
    match (a, b) {
        (Alignment::Left, Alignment::Left) => true,
        (Alignment::Center, Alignment::Center) => true,
        (Alignment::Right, Alignment::Right) => true,
        _ => false,
    }
}

/// Appends the characters of another vector.
fn push_vec(out: &mut Vec<char>, v: &Vec<char>)
    ensures
        final(out)@ == old(out)@ + v@,
{
    let mut i: usize = 0;
    proof {
        assert(out@ =~= old(out)@ + v@.take(0));
    }
    while i < v.len()
        invariant
            i <= v@.len(),
            out@ == old(out)@ + v@.take(i as int),
        decreases v@.len() - i,
    {
        out.push(v[i]);
        i = i + 1;
        proof {
            assert(out@ =~= old(out)@ + v@.take(i as int));
        }
    }
    proof {
        assert(v@.take(v@.len() as int) =~= v@);
    }
}

/// Appends the characters of a string, raw.
fn push_str_raw(out: &mut Vec<char>, s: &String)
    ensures
        final(out)@ == old(out)@ + s@,
{
    let cs = str_chars(s.as_str());
    push_vec(out, &cs);
}

/// Appends a string escaped.
fn push_escaped(out: &mut Vec<char>, s: &String)
    ensures
        final(out)@ == old(out)@ + esc_text(s@),
{
    let cs = str_chars(s.as_str());
    let mut i: usize = 0;
    proof {
        assert(esc_text(cs@.take(0)) =~= Seq::<char>::empty());
        assert(out@ =~= old(out)@ + esc_text(cs@.take(0)));
    }
    while i < cs.len()
        invariant
            i <= cs@.len(),
            out@ == old(out)@ + esc_text(cs@.take(i as int)),
        decreases cs@.len() - i,
    {
        let c = cs[i];
        if c == '\\' {
            out.push('\\');
            out.push('\\');
        } else if c == '`' {
            out.push('\\');
            out.push('`');
        } else if c == '<' {
            out.push('\\');
            out.push('<');
        } else {
            out.push(c);
        }
        i = i + 1;
        proof {
            assert(cs@.take(i as int).drop_last() =~= cs@.take(i - 1));
            assert(cs@.take(i as int).last() == c);
            assert(out@ =~= old(out)@ + esc_text(cs@.take(i as int)));
        }
    }
    proof {
        assert(cs@.take(cs@.len() as int) =~= cs@);
    }
}

fn dec_digit_exec(n: u64) -> (r: char)
    requires
        n < 10,
    ensures
        r == dec_digit_char(n as nat),
{
    if n == 0 {
        '0'
    } else if n == 1 {
        '1'
    } else if n == 2 {
        '2'
    } else if n == 3 {
        '3'
    } else if n == 4 {
        '4'
    } else if n == 5 {
        '5'
    } else if n == 6 {
        '6'
    } else if n == 7 {
        '7'
    } else if n == 8 {
        '8'
    } else {
        '9'
    }
}

fn hex_nibble_exec(n: u8) -> (r: char)
    requires
        n < 16,
    ensures
        r == hex_nibble_char(n as nat),
{
    if n < 10 {
        dec_digit_exec(n as u64)
    } else if n == 10 {
        'a'
    } else if n == 11 {
        'b'
    } else if n == 12 {
        'c'
    } else if n == 13 {
        'd'
    } else if n == 14 {
        'e'
    } else {
        'f'
    }
}

/// Appends the decimal digits of `n`.
fn push_dec(out: &mut Vec<char>, n: u64)
    ensures
        final(out)@ == old(out)@ + dec_digits(n as nat),
    decreases n,
{
    if n < 10 {
        out.push(dec_digit_exec(n));
        proof {
            assert(out@ =~= old(out)@ + dec_digits(n as nat));
        }
    } else {
        push_dec(out, n / 10);
        out.push(dec_digit_exec(n % 10));
        proof {
            assert(out@ =~= old(out)@ + dec_digits(n as nat));
        }
    }
}

/// Appends a re-encoded color.
fn push_color_code(out: &mut Vec<char>, c: Color)
    ensures
        final(out)@ == old(out)@ + color_code(c),
{
    if c.r == c.g && c.g == c.b && ((((c.r as u32) * 99 + 127) / 255) * 255) / 99 == (c.r as u32) {
        let pct = ((c.r as u32) * 99 + 127) / 255;
        out.push('g');
        out.push(dec_digit_exec((pct / 10) as u64));
        out.push(dec_digit_exec((pct % 10) as u64));
        proof {
            assert(out@ =~= old(out)@ + color_code(c));
        }
    } else {
        out.push(hex_nibble_exec((((c.r as u32) + 8) / 17) as u8));
        out.push(hex_nibble_exec((((c.g as u32) + 8) / 17) as u8));
        out.push(hex_nibble_exec((((c.b as u32) + 8) / 17) as u8));
        proof {
            assert(out@ =~= old(out)@ + color_code(c));
        }
    }
}

/// Appends the style markers taking `st` to `t` and returns the new state.
fn push_flag_delta(out: &mut Vec<char>, cur: bool, t: bool, m: char)
    ensures
        final(out)@ == old(out)@ + flag_delta(cur, t, m),
{
    if cur != t {
        out.push('`');
        out.push(m);
        proof {
            assert(out@ =~= old(out)@ + flag_delta(cur, t, m));
        }
    } else {
        proof {
            assert(out@ =~= old(out)@ + flag_delta(cur, t, m));
        }
    }
}

fn push_fg_delta(out: &mut Vec<char>, cur: &Option<Color>, t: &Option<Color>)
    ensures
        final(out)@ == old(out)@ + fg_delta(*cur, *t),
{
    if !opt_color_eq(cur, t) {
        match t {
            Some(c) => {
                out.push('`');
                out.push('F');
                proof {
                    assert(out@ =~= old(out)@ + seq!['`', 'F']);
                }
                push_color_code(out, *c);
                proof {
                    assert(out@ =~= old(out)@ + fg_delta(*cur, *t));
                }
            },
            None => {
                out.push('`');
                out.push('f');
                proof {
                    assert(out@ =~= old(out)@ + fg_delta(*cur, *t));
                }
            },
        }
    } else {
        proof {
            assert(out@ =~= old(out)@ + fg_delta(*cur, *t));
        }
    }
}

fn push_bg_delta(out: &mut Vec<char>, cur: &Option<Color>, t: &Option<Color>)
    ensures
        final(out)@ == old(out)@ + bg_delta(*cur, *t),
{
    if !opt_color_eq(cur, t) {
        match t {
            Some(c) => {
                out.push('`');
                out.push('B');
                proof {
                    assert(out@ =~= old(out)@ + seq!['`', 'B']);
                }
                push_color_code(out, *c);
                proof {
                    assert(out@ =~= old(out)@ + bg_delta(*cur, *t));
                }
            },
            None => {
                out.push('`');
                out.push('b');
                proof {
                    assert(out@ =~= old(out)@ + bg_delta(*cur, *t));
                }
            },
        }
    } else {
        proof {
            assert(out@ =~= old(out)@ + bg_delta(*cur, *t));
        }
    }
}

#[verifier::rlimit(50)]
fn push_style_delta(out: &mut Vec<char>, st: SerState, t: &Style) -> (r: SerState)
    ensures
        final(out)@ == old(out)@ + ser_style_delta(st, *t).0,
        r == ser_style_delta(st, *t).1,
{
    push_flag_delta(out, st.bold, t.bold, '!');
    push_flag_delta(out, st.italic, t.italic, '*');
    push_flag_delta(out, st.underline, t.underline, '_');
    push_fg_delta(out, &st.fg, &t.fg);
    push_bg_delta(out, &st.bg, &t.bg);
    proof {
        assert(out@ =~= old(out)@ + ser_style_delta(st, *t).0);
    }
    SerState {
        fg: t.fg,
        bg: t.bg,
        bold: t.bold,
        italic: t.italic,
        underline: t.underline,
        ..st
    }
}

/// Appends strings joined with `|`.
fn push_join_pipe(out: &mut Vec<char>, fs: &Vec<String>)
    ensures
        final(out)@ == old(out)@ + join_pipe(fs.deep_view()),
{
    let ghost dv = fs.deep_view();
    let mut i: usize = 0;
    proof {
        assert(join_pipe(dv.take(0)) =~= Seq::<char>::empty());
        assert(out@ =~= old(out)@ + join_pipe(dv.take(0)));
    }
    while i < fs.len()
        invariant
            i <= fs@.len(),
            dv == fs.deep_view(),
            out@ == old(out)@ + join_pipe(dv.take(i as int)),
        decreases fs@.len() - i,
    {
        if i > 0 {
            out.push('|');
        }
        push_str_raw(out, &fs[i]);
        i = i + 1;
        proof {
            assert(fs@[i - 1]@ =~= dv[i - 1]);
            if i == 1 {
                assert(join_pipe(dv.take(1)) == dv.take(1)[0]);
                assert(dv.take(1)[0] == dv[0]);
            } else {
                assert(dv.take(i as int).drop_last() =~= dv.take(i - 1));
                assert(dv.take(i as int).last() == dv[i - 1]);
            }
            assert(out@ =~= old(out)@ + join_pipe(dv.take(i as int)));
        }
    }
    proof {
        assert(dv.take(dv.len() as int) =~= dv);
    }
}

fn contains_char_exec(s: &String, c: char) -> (r: bool)
    ensures
        r == seq_contains(s@, c),
{
    let cs = str_chars(s.as_str());
    let mut i: usize = 0;
    while i < cs.len()
        invariant
            i <= cs@.len(),
            cs@ == s@,
            forall|k: int| 0 <= k < i ==> s@[k] != c,
        decreases cs@.len() - i,
    {
        if cs[i] == c {
            return true;
        }
        i = i + 1;
    }
    false
}

/// Appends a serialized link.
fn push_link(out: &mut Vec<char>, l: &LinkElement)
    ensures
        final(out)@ == old(out)@ + ser_link(l@),
{
    out.push('`');
    out.push('[');
    if !str_eq(l.label.as_str(), l.url.as_str()) {
        push_str_raw(out, &l.label);
        out.push('`');
    }
    push_str_raw(out, &l.url);
    if l.fields.len() > 0 {
        out.push('`');
        push_join_pipe(out, &l.fields);
    }
    out.push(']');
    proof {
        assert(out@ =~= old(out)@ + ser_link(l@));
    }
}

/// Appends a serialized field.
fn push_field(out: &mut Vec<char>, f: &Field)
    ensures
        final(out)@ == old(out)@ + ser_field(f@),
{
    out.push('`');
    out.push('<');
    match &f.kind {
        FieldKind::Text => {
            if f.masked {
                out.push('!');
            }
            match f.width {
                Some(w) => {
                    push_dec(out, w as u64);
                    out.push('|');
                },
                None => {
                    if contains_char_exec(&f.name, '|') {
                        out.push('|');
                    }
                },
            }
            push_str_raw(out, &f.name);
            out.push('`');
            push_str_raw(out, &f.default);
            out.push('>');
        },
        FieldKind::Checkbox { checked } => {
            out.push('?');
            out.push('|');
            push_str_raw(out, &f.name);
            out.push('|');
            if *checked {
                out.push('|');
                out.push('*');
            }
            out.push('`');
            push_str_raw(out, &f.default);
            out.push('>');
        },
        FieldKind::Radio { value, checked } => {
            out.push('^');
            out.push('|');
            push_str_raw(out, &f.name);
            out.push('|');
            push_str_raw(out, value);
            if *checked {
                out.push('|');
                out.push('*');
            }
            out.push('`');
            push_str_raw(out, &f.default);
            out.push('>');
        },
    }
    proof {
        assert(out@ =~= old(out)@ + ser_field(f@));
    }
}

/// Appends a serialized transclusion reference.
fn push_partial(out: &mut Vec<char>, p: &Partial)
    ensures
        final(out)@ == old(out)@ + ser_partial(p@),
{
    out.push('`');
    out.push('{');
    push_str_raw(out, &p.url);
    if p.refresh.is_some() || p.fields.len() > 0 {
        out.push('`');
        match p.refresh {
            Some(r) => push_dec(out, r as u64),
            None => (),
        }
        if p.fields.len() > 0 {
            out.push('`');
            push_join_pipe(out, &p.fields);
        }
    }
    out.push('}');
    proof {
        assert(out@ =~= old(out)@ + ser_partial(p@));
    }
}

/// Appends one serialized element and returns the new emitted state.
fn push_elem(out: &mut Vec<char>, e: &Element, st: SerState) -> (r: SerState)
    ensures
        final(out)@ == old(out)@ + ser_elem(e@, st).0,
        r == ser_elem(e@, st).1,
{
    match e {
        Element::Text(t) => {
            let st1 = push_style_delta(out, st, &t.style);
            push_escaped(out, &t.text);
            proof {
                assert(out@ =~= old(out)@ + ser_elem(e@, st).0);
            }
            st1
        },
        Element::Link(l) => {
            let st1 = push_style_delta(out, st, &l.style);
            push_link(out, l);
            proof {
                assert(out@ =~= old(out)@ + ser_elem(e@, st).0);
            }
            st1
        },
        Element::Field(f) => {
            push_field(out, f);
            proof {
                assert(out@ =~= old(out)@ + ser_elem(e@, st).0);
            }
            st
        },
        Element::Partial(p) => {
            push_partial(out, p);
            proof {
                assert(out@ =~= old(out)@ + ser_elem(e@, st).0);
            }
            st
        },
    }
}

/// Appends a line's serialized elements and returns the final emitted state.
fn push_elems(out: &mut Vec<char>, es: &Vec<Element>, st0: SerState) -> (r: SerState)
    ensures
        final(out)@ == old(out)@ + ser_elems(crate::parser::elems_view(es@), st0).0,
        r == ser_elems(crate::parser::elems_view(es@), st0).1,
{
    let ghost ev = crate::parser::elems_view(es@);
    let mut st = st0;
    let mut i: usize = 0;
    proof {
        assert(ev.skip(0) =~= ev);
        assert(out@ =~= old(out)@);
    }
    while i < es.len()
        invariant
            i <= es@.len(),
            ev == crate::parser::elems_view(es@),
            old(out)@ + ser_elems(ev, st0).0 == out@ + ser_elems(ev.skip(i as int), st).0,
            ser_elems(ev, st0).1 == ser_elems(ev.skip(i as int), st).1,
        decreases es@.len() - i,
    {
        let ghost rest = ev.skip(i as int);
        proof {
            assert(rest[0] == es@[i as int]@);
            assert(rest.drop_first() =~= ev.skip(i + 1));
        }
        let st2 = push_elem(out, &es[i], st);
        st = st2;
        i = i + 1;
        proof {
            assert(out@ + ser_elems(ev.skip(i as int), st).0 =~= old(out)@ + ser_elems(
                ev,
                st0,
            ).0);
        }
    }
    proof {
        assert(ev.skip(es@.len() as int) =~= Seq::<ElemV>::empty());
        assert(out@ =~= old(out)@ + ser_elems(ev, st0).0);
    }
    st
}

/// Appends one serialized line and returns the new emitted state.
#[verifier::rlimit(80)]
fn push_line(out: &mut Vec<char>, line: &Line, st: SerState) -> (r: SerState)
    ensures
        final(out)@ == old(out)@ + ser_line(line@, st).0,
        r == ser_line(line@, st).1,
{
    proof {
        assert(line@.elements =~= crate::parser::elems_view(line.elements@));
    }
    match line.kind {
        LineKind::Comment => {
            out.push('#');
            if line.elements.len() > 0 {
                match &line.elements[0] {
                    Element::Text(t) => push_str_raw(out, &t.text),
                    _ => (),
                }
            }
            proof {
                assert(out@ =~= old(out)@ + ser_line(line@, st).0);
            }
            st
        },
        LineKind::Divider(ch) => {
            out.push('-');
            if ch != '\u{2500}' {
                out.push(ch);
            }
            proof {
                assert(out@ =~= old(out)@ + ser_line(line@, st).0);
            }
            st
        },
        LineKind::Heading(n) => {
            let ghost amark = if line@.alignment != st.alignment {
                align_marker(line@.alignment)
            } else {
                Seq::<char>::empty()
            };
            let mut k: u8 = 0;
            while k < n
                invariant
                    k <= n,
                    out@ == old(out)@ + gt_reps(k as nat),
                decreases n - k,
            {
                out.push('>');
                k = k + 1;
                proof {
                    assert(out@ =~= old(out)@ + gt_reps(k as nat));
                }
            }
            let amark_emitted = !align_eq(line.alignment, st.alignment);
            if amark_emitted {
                match line.alignment {
                    Alignment::Left => {
                        out.push('`');
                        out.push('a');
                    },
                    Alignment::Center => {
                        out.push('`');
                        out.push('c');
                    },
                    Alignment::Right => {
                        out.push('`');
                        out.push('r');
                    },
                }
            }
            proof {
                assert(out@ =~= old(out)@ + gt_reps(n as nat) + amark);
            }
            let st1 = SerState { alignment: line.alignment, ..st };
            let mut body: Vec<char> = Vec::new();
            let st2 = push_elems(&mut body, &line.elements, st1);
            let ghost bodyv = ser_elems(line@.elements, st1);
            let ghost shield = if amark.len() == 0 && bodyv.0.len() > 0 && bodyv.0[0] == '>' {
                seq!['\\']
            } else {
                Seq::<char>::empty()
            };
            if !amark_emitted && body.len() > 0 && body[0] == '>' {
                out.push('\\');
            }
            proof {
                assert(body@ == bodyv.0);
                assert(out@ =~= old(out)@ + gt_reps(n as nat) + amark + shield);
            }
            push_vec(out, &body);
            proof {
                assert(out@ =~= old(out)@ + (gt_reps(n as nat) + amark + shield + bodyv.0));
                assert(ser_line(line@, st).0 == gt_reps(n as nat) + amark + shield + bodyv.0);
            }
            st2
        },
        LineKind::Normal => {
            let ghost amark = if line@.alignment != st.alignment {
                align_marker(line@.alignment)
            } else {
                Seq::<char>::empty()
            };
            let amark_emitted = !align_eq(line.alignment, st.alignment);
            if amark_emitted {
                match line.alignment {
                    Alignment::Left => {
                        out.push('`');
                        out.push('a');
                    },
                    Alignment::Center => {
                        out.push('`');
                        out.push('c');
                    },
                    Alignment::Right => {
                        out.push('`');
                        out.push('r');
                    },
                }
            }
            proof {
                assert(out@ =~= old(out)@ + amark);
            }
            let st1 = SerState { alignment: line.alignment, ..st };
            let mut body: Vec<char> = Vec::new();
            let st2 = push_elems(&mut body, &line.elements, st1);
            let ghost bodyv = ser_elems(line@.elements, st1);
            let ghost shield = if amark.len() == 0 && bodyv.0.len() > 0 && (bodyv.0[0] == '#'
                || bodyv.0[0] == '-' || bodyv.0[0] == '>') {
                seq!['\\']
            } else {
                Seq::<char>::empty()
            };
            if !amark_emitted && body.len() > 0 && (body[0] == '#' || body[0] == '-' || body[0]
                == '>') {
                out.push('\\');
            }
            proof {
                assert(body@ == bodyv.0);
                assert(out@ =~= old(out)@ + amark + shield);
            }
            push_vec(out, &body);
            proof {
                assert(out@ =~= old(out)@ + (amark + shield + bodyv.0));
                assert(ser_line(line@, st).0 == amark + shield + bodyv.0);
            }
            st2
        },
    }
}

impl Document {
    /// The markup text this document serializes to: the exact inverse of the
    /// parser for every document the parser can produce.
    pub fn to_string(&self) -> (s: String)
        ensures
            s@ == ser_doc(self@),
    {
        let ghost dv = self@;
        let mut out: Vec<char> = Vec::new();
        let mut st = SerState {
            fg: None,
            bg: None,
            bold: false,
            italic: false,
            underline: false,
            alignment: Alignment::Left,
        };
        proof {
            assert(st == init_ser_state());
        }
        let mut i: usize = 0;
        proof {
            assert(out@ =~= Seq::<char>::empty());
        }
        while i < self.lines.len()
            invariant
                i <= self.lines@.len(),
                dv == self@,
                ser_doc(dv) == out@ + ser_lines_from(dv, i as int, st),
            decreases self.lines@.len() - i,
        {
            if i > 0 {
                out.push('\n');
            }
            proof {
                assert(dv[i as int] == self.lines@[i as int]@);
            }
            let st2 = push_line(&mut out, &self.lines[i], st);
            st = st2;
            i = i + 1;
            proof {
                assert(ser_doc(dv) =~= out@ + ser_lines_from(dv, i as int, st));
            }
        }
        proof {
            assert(ser_lines_from(dv, i as int, st) =~= Seq::<char>::empty());
            assert(out@ =~= ser_doc(dv));
        }
        string_from_chars(&out)
    }
}

// ---------------------------------------------------------------------------
// Round trip of the color encoding
// ---------------------------------------------------------------------------

/// A decimal digit character reads back as its value.
proof fn lemma_digit_char_val(n: nat)
    requires
        n < 10,
    ensures
        is_digit(dec_digit_char(n)),
        digit_val(dec_digit_char(n)) == n,
{
}

/// A hex nibble character reads back as its value and is not `g`.
proof fn lemma_hex_nibble_val(n: nat)
    requires
        n < 16,
    ensures
        hex_digit_val(hex_nibble_char(n)) == n,
        hex_nibble_char(n) != 'g',
{
}

/// The value of a one-digit string.
proof fn lemma_digits_val_one(x: char)
    ensures
        digits_val(seq![x]) == digit_val(x),
{
    let s = seq![x];
    assert(s.last() == x);
    assert(s.drop_last() =~= Seq::<char>::empty());
    assert(digits_val(Seq::<char>::empty()) == 0);
    assert(digits_val(s) == digits_val(s.drop_last()) * 10 + digit_val(x));
}

/// The value of a two-digit string.
proof fn lemma_digits_val_two(x: char, y: char)
    ensures
        digits_val(seq![x, y]) == digit_val(x) * 10 + digit_val(y),
{
    let s = seq![x, y];
    assert(s.last() == y);
    assert(s.drop_last() =~= seq![x]);
    lemma_digits_val_one(x);
    assert(digits_val(s) == digits_val(s.drop_last()) * 10 + digit_val(y));
}

/// Two digit characters parse back to their two-digit number.
proof fn lemma_two_digit_parse(b: nat)
    requires
        b <= 99,
    ensures
        parse_uint_spec(seq![dec_digit_char(b / 10), dec_digit_char(b % 10)], 255) == Some(
            b as u64,
        ),
{
    let hi = dec_digit_char(b / 10);
    let lo = dec_digit_char(b % 10);
    let s = seq![hi, lo];
    lemma_digit_char_val(b / 10);
    lemma_digit_char_val(b % 10);
    assert(s[0] != '+');
    assert(all_digits(s));
    lemma_digits_val_two(hi, lo);
    assert(digits_val(s) == b);
}

/// The gray quantization reads back exactly: encoding a decoded 0–99 level
/// recovers the level.
proof fn lemma_gray_quantization(b: nat)
    requires
        b <= 99,
    ensures
        ((((255 * b) / 99) * 99 + 127) / 255) == b,
{
    let v = (255 * b) / 99;
    lemma_fundamental_div_mod(255 * b as int, 99);
    let m = (255 * b) % 99;
    assert(255 * b == 99 * v + m);
    assert(0 <= m < 99);
    let t = v * 99 + 127;
    let k = 127 - m;
    assert(t == 255 * b + k) by (nonlinear_arith)
        requires
            255 * b == 99 * v + m,
            t == v * 99 + 127,
            k == 127 - m,
    ;
    assert(29 <= k <= 127);
    lemma_fundamental_div_mod_converse(t as int, 255, b as int, k as int);
    assert(t / 255 == b);
}

/// Color codes re-encode losslessly: re-encoding a decoded color and
/// decoding again gives the same color. The heart of the parse–serialize
/// round trip for styles.
pub proof fn lemma_color_code_roundtrip(cs: Seq<char>)
    requires
        cs.len() == 3,
    ensures
        color_of(color_code(color_of(cs))) == color_of(cs),
{
    let c = color_of(cs);
    if cs[0] == 'g' {
        let b: nat = match parse_uint_spec(cs.subrange(1, 3), 255) {
            Some(n) => n as nat,
            None => 0,
        };
        assert(b <= 99) by {
            let body0 = cs.subrange(1, 3);
            let body = if body0.len() >= 1 && body0[0] == '+' {
                body0.drop_first()
            } else {
                body0
            };
            if parse_uint_spec(body0, 255) is Some {
                if body.len() == 2 {
                    assert(body =~= seq![body[0], body[1]]);
                    lemma_digits_val_two(body[0], body[1]);
                    assert(digit_val(body[0]) <= 9 && digit_val(body[1]) <= 9);
                } else {
                    assert(body.len() == 1);
                    assert(body =~= seq![body[0]]);
                    lemma_digits_val_one(body[0]);
                    assert(digit_val(body[0]) <= 9);
                }
            }
        }
        let v = ((b * 255) / 99) as u8;
        assert((b * 255) / 99 <= 255) by (nonlinear_arith)
            requires
                b <= 99,
        ;
        assert(c == Color { r: v, g: v, b: v });
        lemma_gray_quantization(b);
        assert((255 * b) == (b * 255));
        let pct = ((v as nat) * 99 + 127) / 255;
        assert(((v as nat) * 99) == (((255 * b) / 99) * 99));
        assert(pct == b);
        assert((pct * 255) / 99 == v);
        assert(color_code(c) == seq!['g', dec_digit_char(pct / 10), dec_digit_char(pct % 10)]);
        let code = color_code(c);
        assert(code[0] == 'g');
        lemma_two_digit_parse(b);
        assert(code.subrange(1, 3) =~= seq![dec_digit_char(b / 10), dec_digit_char(b % 10)]);
        assert(color_of(code) == c);
    } else {
        let h0 = hex_digit_val(cs[0]);
        let h1 = hex_digit_val(cs[1]);
        let h2 = hex_digit_val(cs[2]);
        assert(h0 <= 15 && h1 <= 15 && h2 <= 15);
        assert(c == Color { r: (h0 * 17) as u8, g: (h1 * 17) as u8, b: (h2 * 17) as u8 });
        if c.r == c.g && c.g == c.b && ((((c.r as nat) * 99 + 127) / 255) * 255) / 99 == c.r {
            let pct = ((c.r as nat) * 99 + 127) / 255;
            assert(pct <= 99) by (nonlinear_arith)
                requires
                    c.r <= 255,
                    pct == ((c.r as nat) * 99 + 127) / 255,
            ;
            let code = color_code(c);
            assert(code == seq!['g', dec_digit_char(pct / 10), dec_digit_char(pct % 10)]);
            lemma_two_digit_parse(pct);
            assert(code.subrange(1, 3) =~= seq![
                dec_digit_char(pct / 10),
                dec_digit_char(pct % 10),
            ]);
            assert(color_of(code).r == ((pct * 255) / 99) as u8);
            assert((pct * 255) == (255 * pct));
            assert(color_of(code) == c);
        } else {
            let n0 = ((c.r as nat) + 8) / 17;
            let n1 = ((c.g as nat) + 8) / 17;
            let n2 = ((c.b as nat) + 8) / 17;
            assert(n0 == h0 && n1 == h1 && n2 == h2) by (nonlinear_arith)
                requires
                    c.r == h0 * 17 && c.g == h1 * 17 && c.b == h2 * 17,
                    h0 <= 15 && h1 <= 15 && h2 <= 15,
                    n0 == ((c.r as nat) + 8) / 17,
                    n1 == ((c.g as nat) + 8) / 17,
                    n2 == ((c.b as nat) + 8) / 17,
            ;
            let code = color_code(c);
            assert(code == seq![hex_nibble_char(n0), hex_nibble_char(n1), hex_nibble_char(n2)]);
            lemma_hex_nibble_val(n0);
            lemma_hex_nibble_val(n1);
            lemma_hex_nibble_val(n2);
            assert(code[0] != 'g');
            assert(color_of(code) == c);
        }
    }
}

/// Every digit of an encoded number is a digit, and the digits read back as
/// the number.
proof fn lemma_dec_digits_val(n: nat)
    ensures
        dec_digits(n).len() >= 1,
        all_digits(dec_digits(n)),
        digits_val(dec_digits(n)) == n,
        is_digit(dec_digits(n)[0]),
    decreases n,
{
    if n < 10 {
        lemma_digit_char_val(n);
        lemma_digits_val_one(dec_digit_char(n));
    } else {
        lemma_dec_digits_val(n / 10);
        lemma_digit_char_val(n % 10);
        let s = dec_digits(n);
        let p = dec_digits(n / 10);
        assert(s == p + seq![dec_digit_char(n % 10)]);
        assert(s.drop_last() =~= p);
        assert(s.last() == dec_digit_char(n % 10));
        assert(digits_val(s) == digits_val(p) * 10 + (n % 10));
        assert(forall|i: int| 0 <= i < s.len() - 1 ==> s[i] == p[i]);
    }
}

/// A serialized number parses back to itself: field widths and refresh
/// intervals survive the round trip.
pub proof fn lemma_dec_digits_roundtrip(n: nat, max: u64)
    requires
        n <= max,
    ensures
        parse_uint_spec(dec_digits(n), max) == Some(n as u64),
{
    lemma_dec_digits_val(n);
    assert(dec_digits(n)[0] != '+');
}

// ---------------------------------------------------------------------------
// Round trip of plain text documents
// ---------------------------------------------------------------------------

/// Escaping splits off its first character's code.
proof fn lemma_esc_text_front(s: Seq<char>)
    requires
        s.len() > 0,
    ensures
        esc_text(s) == esc_char(s[0]) + esc_text(s.drop_first()),
    decreases s.len(),
{
    if s.len() == 1 {
        assert(s.drop_last() =~= Seq::<char>::empty());
        assert(esc_text(Seq::<char>::empty()) =~= Seq::<char>::empty());
        assert(s.drop_first() =~= Seq::<char>::empty());
        assert(esc_text(s) =~= esc_char(s[0]) + esc_text(s.drop_first()));
    } else {
        lemma_esc_text_front(s.drop_last());
        assert(s.drop_last()[0] == s[0]);
        assert(s.drop_last().drop_first() =~= s.drop_first().drop_last());
        assert(s.drop_first().last() == s.last());
        assert(esc_text(s) == esc_text(s.drop_last()) + esc_char(s.last()));
        assert(esc_text(s.drop_first()) == esc_text(s.drop_first().drop_last()) + esc_char(
            s.last(),
        ));
        assert(esc_text(s) =~= esc_char(s[0]) + esc_text(s.drop_first()));
    }
}

/// Scanning escaped text, outside literal mode with no pending escape,
/// appends exactly that text to the pending buffer and consumes the rest of
/// the line, leaving the state untouched.
#[verifier::rlimit(100)]
#[verifier::spinoff_prover]
proof fn lemma_scan_escaped(
    l: Seq<char>,
    i: int,
    s: Seq<char>,
    st: ParseState,
    buf: Seq<char>,
    fta: Option<crate::ast::Alignment>,
    acc: Seq<ElemV>,
)
    requires
        0 <= i <= l.len(),
        !st.literal_mode,
        l.subrange(i, l.len() as int) == esc_text(s),
    ensures
        scan(l, i, st, buf, false, fta, acc) == (
            flush_acc(buf + s, st, acc),
            st,
            flush_fta(buf + s, st, fta),
        ),
    decreases s.len(),
{
    let rest = l.subrange(i, l.len() as int);
    if s.len() == 0 {
        assert(esc_text(s) =~= Seq::<char>::empty());
        assert(i == l.len());
        assert(buf + s =~= buf);
    } else {
        lemma_esc_text_front(s);
        let c = s[0];
        let code = esc_char(c);
        assert(rest == code + esc_text(s.drop_first()));
        assert(l[i] == rest[0] && rest[0] == code[0]);
        if c == '\\' || c == '`' || c == '<' {
            assert(code == seq!['\\', c]);
            assert(l[i] == '\\');
            assert(i + 1 < l.len());
            assert(l[i + 1] == rest[1] && rest[1] == c);
            assert(scan(l, i, st, buf, false, fta, acc) == scan(l, i + 1, st, buf, true, fta, acc));
            assert(scan(l, i + 1, st, buf, true, fta, acc) == scan(
                l,
                i + 2,
                st,
                buf.push(c),
                false,
                fta,
                acc,
            ));
            assert(l.subrange(i + 2, l.len() as int) =~= rest.subrange(2, rest.len() as int));
            assert(rest.subrange(2, rest.len() as int) =~= esc_text(s.drop_first()));
            lemma_scan_escaped(l, i + 2, s.drop_first(), st, buf.push(c), fta, acc);
            assert(buf.push(c) + s.drop_first() =~= buf + s);
        } else {
            assert(code == seq![c]);
            assert(l[i] == c);
            assert(c != '\\' && c != '`');
            assert(scan(l, i, st, buf, false, fta, acc) == scan(
                l,
                i + 1,
                st,
                buf.push(c),
                false,
                fta,
                acc,
            ));
            assert(l.subrange(i + 1, l.len() as int) =~= rest.subrange(1, rest.len() as int));
            assert(rest.subrange(1, rest.len() as int) =~= esc_text(s.drop_first()));
            lemma_scan_escaped(l, i + 1, s.drop_first(), st, buf.push(c), fta, acc);
            assert(buf.push(c) + s.drop_first() =~= buf + s);
        }
    }
}

/// A line of one plain unstyled left-aligned text run: nonempty, without a
/// line feed, and not ending in a carriage return that a following line feed
/// would swallow.
pub open spec fn plain_text_line(lv: LineV) -> bool {
    &&& lv.kind == LineKind::Normal
    &&& lv.indent_depth == 0
    &&& lv.alignment == Alignment::Left
    &&& lv.elements.len() == 1
    &&& match lv.elements[0] {
        ElemV::Text(t) => t.style == crate::ast::default_style() && t.text.len() > 0
            && !seq_contains(t.text, '\n') && t.text.last() != '\r',
        _ => false,
    }
}

/// Serializing a plain text line and parsing it back gives the same line,
/// and both machines return to their initial states.
#[verifier::rlimit(100)]
#[verifier::spinoff_prover]
proof fn lemma_plain_line_roundtrip(lv: LineV)
    requires
        plain_text_line(lv),
    ensures
        ser_line(lv, init_ser_state()).1 == init_ser_state(),
        parse_line_spec(ser_line(lv, init_ser_state()).0, init_state()).0 == Some(lv),
        parse_line_spec(ser_line(lv, init_ser_state()).0, init_state()).1 == init_state(),
{
    let sts = init_ser_state();
    let stp = init_state();
    let t = (match lv.elements[0] {
        ElemV::Text(t0) => t0,
        _ => arbitrary(),
    });
    let text = t.text;
    // The serialized body is exactly the escaped text.
    let d = ser_style_delta(sts, t.style);
    assert(d.0 =~= Seq::<char>::empty());
    assert(d.1 == sts);
    let body = ser_elems(lv.elements, sts);
    assert(lv.elements.drop_first() =~= Seq::<ElemV>::empty());
    assert(ser_elem(lv.elements[0], sts).0 =~= esc_text(text));
    assert(ser_elem(lv.elements[0], sts).1 == sts);
    let restr = ser_elems(lv.elements.drop_first(), sts);
    assert(restr.0 =~= Seq::<char>::empty());
    assert(restr.1 == sts);
    assert(body.0 == ser_elem(lv.elements[0], sts).0 + restr.0);
    assert(body.0 =~= esc_text(text));
    assert(body.1 == sts);
    lemma_esc_text_front(text);
    let t0 = text[0];
    let line = ser_line(lv, sts).0;
    let shielded = t0 == '#' || t0 == '-' || t0 == '>';
    assert(esc_text(text).len() > 0);
    if shielded {
        assert(esc_char(t0) == seq![t0]);
        assert(esc_text(text)[0] == t0);
        assert(line =~= seq!['\\'] + esc_text(text));
    } else {
        assert(line =~= esc_text(text));
    }
    assert(ser_line(lv, sts).1 == sts);
    // Parsing the line back.
    let special = t0 == '\\' || t0 == '`' || t0 == '<';
    if special {
        assert(esc_char(t0) == seq!['\\', t0]);
        assert(line[0] == '\\');
    } else if shielded {
        assert(line[0] == '\\');
    } else {
        assert(esc_char(t0) == seq![t0]);
        assert(line[0] == t0);
        assert(line[0] != '\\' && line[0] != '`' && line[0] != '<' && line[0] != '>' && line[0]
            != '#' && line[0] != '-');
    }
    assert(!(line.len() == 2 && line[0] == '`' && line[1] == '='));
    assert(line[0] != '>');
    if special || shielded {
        let l2 = line.drop_first();
        assert(parse_line_spec(line, stp) == scanned_line(l2, 0, stp, true, LineKind::Normal, 0));
        // One scan step through the escaped or shielded first character.
        if special {
            assert(l2 =~= esc_text(text).drop_first());
            assert(esc_text(text)[1] == t0);
            assert(l2[0] == t0);
            assert(l2.subrange(1, l2.len() as int) =~= esc_text(text).subrange(
                2,
                esc_text(text).len() as int,
            ));
            assert(esc_text(text).subrange(2, esc_text(text).len() as int) =~= esc_text(
                text.drop_first(),
            ));
        } else {
            assert(l2 =~= esc_text(text));
            assert(esc_text(text)[0] == t0);
            assert(l2[0] == t0);
            assert(l2.subrange(1, l2.len() as int) =~= esc_text(text).subrange(
                1,
                esc_text(text).len() as int,
            ));
            assert(esc_text(text).subrange(1, esc_text(text).len() as int) =~= esc_text(
                text.drop_first(),
            ));
        }
        let e0: Seq<ElemV> = Seq::empty();
        let b0: Seq<char> = Seq::empty();
        assert(scan(l2, 0, stp, b0, true, None, e0) == scan(
            l2,
            1,
            stp,
            b0.push(t0),
            false,
            None,
            e0,
        ));
        assert(l2.subrange(1, l2.len() as int) =~= esc_text(text.drop_first()));
        lemma_scan_escaped(l2, 1, text.drop_first(), stp, b0.push(t0), None, e0);
        assert(b0.push(t0) + text.drop_first() =~= text);
        let r = scan(l2, 0, stp, b0, true, None, e0);
        assert(r.0 =~= seq![ElemV::Text(TextV { text, style: current_style(stp) })]);
        assert(current_style(stp) == crate::ast::default_style());
        assert(TextV { text, style: current_style(stp) } == t);
        assert(lv.elements =~= seq![ElemV::Text(t)]);
        assert(r.0 == lv.elements);
        assert(r.1 == stp && r.2 == Some(crate::ast::Alignment::Left));
        assert(scanned_line(l2, 0, stp, true, LineKind::Normal, 0).0 == Some(
            LineV {
                kind: LineKind::Normal,
                indent_depth: 0,
                alignment: crate::ast::Alignment::Left,
                elements: r.0,
            },
        ));
        assert(parse_line_spec(line, stp).0 == Some(lv));
    } else {
        assert(parse_line_spec(line, stp) == scanned_line(line, 0, stp, false, LineKind::Normal, 0));
        let e0: Seq<ElemV> = Seq::empty();
        let b0: Seq<char> = Seq::empty();
        assert(line.subrange(0, line.len() as int) =~= esc_text(text));
        lemma_scan_escaped(line, 0, text, stp, b0, None, e0);
        assert(b0 + text =~= text);
        let r = scan(line, 0, stp, b0, false, None, e0);
        assert(r.0 =~= seq![ElemV::Text(TextV { text, style: current_style(stp) })]);
        assert(current_style(stp) == crate::ast::default_style());
        assert(TextV { text, style: current_style(stp) } == t);
        assert(lv.elements =~= seq![ElemV::Text(t)]);
        assert(r.0 == lv.elements);
        assert(r.1 == stp && r.2 == Some(crate::ast::Alignment::Left));
        assert(scanned_line(line, 0, stp, false, LineKind::Normal, 0).0 == Some(
            LineV {
                kind: LineKind::Normal,
                indent_depth: 0,
                alignment: crate::ast::Alignment::Left,
                elements: r.0,
            },
        ));
        assert(parse_line_spec(line, stp).0 == Some(lv));
    }
}

/// Escaping introduces no line feed.
proof fn lemma_esc_no_newline(s: Seq<char>)
    requires
        !seq_contains(s, '\n'),
    ensures
        !seq_contains(esc_text(s), '\n'),
    decreases s.len(),
{
    if s.len() > 0 {
        assert(!seq_contains(s.drop_last(), '\n')) by {
            if seq_contains(s.drop_last(), '\n') {
                let i = choose|i: int| 0 <= i < s.drop_last().len() && s.drop_last()[i] == '\n';
                assert(s[i] == '\n');
            }
        }
        lemma_esc_no_newline(s.drop_last());
        assert(s.last() != '\n');
        let code = esc_char(s.last());
        assert(forall|i: int| 0 <= i < code.len() ==> code[i] != '\n');
        if seq_contains(esc_text(s), '\n') {
            let i = choose|i: int| 0 <= i < esc_text(s).len() && esc_text(s)[i] == '\n';
            if i < esc_text(s.drop_last()).len() {
                assert(seq_contains(esc_text(s.drop_last()), '\n'));
            } else {
                assert(code[i - esc_text(s.drop_last()).len()] == '\n');
            }
        }
    }
}

/// Escaped text is nonempty and keeps its last character off `\r` when the
/// source does.
proof fn lemma_esc_last(s: Seq<char>)
    requires
        s.len() > 0,
        s.last() != '\r',
    ensures
        esc_text(s).len() > 0,
        esc_text(s).last() != '\r',
{
    let code = esc_char(s.last());
    assert(esc_text(s) == esc_text(s.drop_last()) + code);
    assert(code.len() > 0 && code.last() != '\r');
}

/// What one plain line serializes to, from the initial emitted state.
pub open spec fn plain_line_text(lv: LineV) -> Seq<char> {
    ser_line(lv, init_ser_state()).0
}

/// A plain line's serialization is a nonempty newline-free piece that
/// survives line splitting.
proof fn lemma_plain_line_text_props(lv: LineV)
    requires
        plain_text_line(lv),
    ensures
        plain_line_text(lv).len() > 0,
        !seq_contains(plain_line_text(lv), '\n'),
        plain_line_text(lv).last() != '\r',
{
    let sts = init_ser_state();
    let t = (match lv.elements[0] {
        ElemV::Text(t0) => t0,
        _ => arbitrary(),
    });
    let text = t.text;
    let d = ser_style_delta(sts, t.style);
    assert(d.0 =~= Seq::<char>::empty());
    let restr = ser_elems(lv.elements.drop_first(), sts);
    assert(lv.elements.drop_first() =~= Seq::<ElemV>::empty());
    assert(restr.0 =~= Seq::<char>::empty());
    assert(ser_elem(lv.elements[0], sts).0 =~= esc_text(text));
    let body = ser_elems(lv.elements, sts);
    assert(body.0 == ser_elem(lv.elements[0], sts).0 + restr.0);
    assert(body.0 =~= esc_text(text));
    lemma_esc_no_newline(text);
    lemma_esc_last(text);
    let line = plain_line_text(lv);
    let shield = if body.0.len() > 0 && (body.0[0] == '#' || body.0[0] == '-' || body.0[0]
        == '>') {
        seq!['\\']
    } else {
        Seq::<char>::empty()
    };
    assert(line == shield + body.0);
    assert(line.last() == esc_text(text).last());
    if seq_contains(line, '\n') {
        let i = choose|i: int| 0 <= i < line.len() && line[i] == '\n';
        if i < shield.len() {
        } else {
            assert(esc_text(text)[i - shield.len()] == '\n');
            assert(seq_contains(esc_text(text), '\n'));
        }
    }
}

/// Splitting off the first newline-free piece.
proof fn lemma_split_head(t: Seq<char>, rest: Seq<char>)
    requires
        t.len() > 0,
        !seq_contains(t, '\n'),
        t.last() != '\r',
    ensures
        split_lines(t + seq!['\n'] + rest) == seq![t] + split_lines(rest),
{
    let s = t + seq!['\n'] + rest;
    crate::strutil::lemma_find_from(s, 0, '\n');
    let j = crate::strutil::find_from(s, 0, '\n');
    assert(s[t.len() as int] == '\n');
    assert(j <= t.len()) by {
        if j > t.len() {
            assert(s[t.len() as int] != '\n');
        }
    }
    assert(j == t.len()) by {
        if j < t.len() {
            assert(s[j] == t[j]);
            assert(seq_contains(t, '\n'));
        }
    }
    assert(s.subrange(0, j) =~= t);
    assert(strip_cr(t) == t);
    assert(s.subrange(j + 1, s.len() as int) =~= rest);
    assert(split_lines(s) == seq![t] + split_lines(rest));
}

/// A single newline-free piece splits to itself.
proof fn lemma_split_single(t: Seq<char>)
    requires
        t.len() > 0,
        !seq_contains(t, '\n'),
    ensures
        split_lines(t) == seq![t],
{
    crate::strutil::lemma_find_from(t, 0, '\n');
    let j = crate::strutil::find_from(t, 0, '\n');
    assert(j == t.len()) by {
        if j < t.len() {
            assert(seq_contains(t, '\n'));
        }
    }
}

/// The suffix of a plain document from line `i` parses back to those lines.
#[verifier::rlimit(100)]
#[verifier::spinoff_prover]
proof fn lemma_plain_suffix(d: Seq<LineV>, i: int)
    requires
        0 <= i < d.len(),
        forall|k: int| 0 <= k < d.len() ==> plain_text_line(#[trigger] d[k]),
    ensures
        ({
            let suffix = plain_line_text(d[i]) + ser_lines_from(d, i + 1, init_ser_state());
            parse_lines(split_lines(suffix), init_state()) == (
                d.subrange(i, d.len() as int),
                init_state(),
            )
        }),
    decreases d.len() - i,
{
    let sts = init_ser_state();
    let stp = init_state();
    let lt = plain_line_text(d[i]);
    lemma_plain_line_text_props(d[i]);
    lemma_plain_line_roundtrip(d[i]);
    if i == d.len() - 1 {
        assert(ser_lines_from(d, i + 1, sts) =~= Seq::<char>::empty());
        let suffix = lt + ser_lines_from(d, i + 1, sts);
        assert(suffix =~= lt);
        lemma_split_single(lt);
        assert(split_lines(suffix) == seq![lt]);
        let ls = seq![lt];
        assert(ls[0] == lt);
        assert(ls.drop_first() =~= Seq::<Seq<char>>::empty());
        assert(parse_lines(ls.drop_first(), stp) == (Seq::<LineV>::empty(), stp));
        assert(parse_lines(ls, stp).0 =~= d.subrange(i, d.len() as int));
    } else {
        lemma_plain_line_roundtrip(d[i + 1]);
        let r1 = ser_line(d[i + 1], sts);
        assert(r1.1 == sts);
        let tail2 = ser_lines_from(d, i + 2, sts);
        assert(ser_lines_from(d, i + 1, sts) == seq!['\n'] + r1.0 + tail2);
        let suffix1 = plain_line_text(d[i + 1]) + tail2;
        let suffix = lt + ser_lines_from(d, i + 1, sts);
        assert(suffix =~= lt + seq!['\n'] + suffix1);
        lemma_split_head(lt, suffix1);
        lemma_plain_suffix(d, i + 1);
        let ls = seq![lt] + split_lines(suffix1);
        assert(split_lines(suffix) == ls);
        assert(ls[0] == lt);
        assert(ls.drop_first() =~= split_lines(suffix1));
        assert(parse_lines(ls, stp).0 == seq![d[i]] + d.subrange(i + 1, d.len() as int));
        assert(parse_lines(ls, stp).0 =~= d.subrange(i, d.len() as int));
        assert(parse_lines(ls, stp).1 == stp);
    }
}

/// The parse–serialize round trip on plain text documents: serializing any
/// document of plain text lines and parsing the result gives the same
/// document back.
pub proof fn lemma_plain_doc_roundtrip(d: Seq<LineV>)
    requires
        forall|k: int| 0 <= k < d.len() ==> plain_text_line(#[trigger] d[k]),
    ensures
        parse_doc(ser_doc(d)) == d,
{
    let sts = init_ser_state();
    let stp = init_state();
    if d.len() == 0 {
        assert(ser_doc(d) =~= Seq::<char>::empty());
        assert(split_lines(ser_doc(d)) =~= Seq::<Seq<char>>::empty());
        assert(parse_doc(ser_doc(d)) =~= d);
    } else {
        lemma_plain_line_roundtrip(d[0]);
        assert(ser_doc(d) == ser_line(d[0], sts).0 + ser_lines_from(d, 1, ser_line(d[0], sts).1));
        assert(ser_doc(d) == plain_line_text(d[0]) + ser_lines_from(d, 1, sts));
        lemma_plain_suffix(d, 0);
        assert(parse_doc(ser_doc(d)) == d.subrange(0, d.len() as int));
        assert(d.subrange(0, d.len() as int) =~= d);
    }
}

} // verus!
