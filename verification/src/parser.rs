//! The parser: raw text to `Document`. Total — it never fails; malformed
//! constructs degrade to literal text or are dropped.
//!
//! The whole grammar is given twice: once as spec functions over `Seq<char>`
//! (`parse_doc` and its helpers), which are the reference meaning of the
//! format, and once as executable code proved to return exactly what the spec
//! functions describe.

use vstd::prelude::*;

use crate::ast::{
    Alignment, Color, Document, Element, ElemV, Field, FieldKind, FieldKindV, FieldV, Line,
    LineKind, LineV, LinkElement, LinkV, Partial, PartialV, Style, StyledText, TextV,
};
use crate::digits::{hex_digit, hex_digit_val, parse_uint, parse_uint_spec};
use crate::strutil::{
    find_char, find_char2, find_from, find_from2, lemma_find_from, lemma_find_from2,
    lemma_find_from_offset, split_chars, split_on, str_chars, string_from_chars, subvec,
};

verus! {

/// The scanner state that persists across lines: literal mode, indent depth,
/// and the current style and alignment.
#[derive(Debug, Clone, Copy, PartialEq, Eq)]
pub struct ParseState {
    pub literal_mode: bool,
    pub depth: u8,
    pub fg: Option<Color>,
    pub bg: Option<Color>,
    pub bold: bool,
    pub italic: bool,
    pub underline: bool,
    pub alignment: Alignment,
}

/// The state every parse starts from.
pub open spec fn init_state() -> ParseState {
    ParseState {
        literal_mode: false,
        depth: 0,
        fg: None,
        bg: None,
        bold: false,
        italic: false,
        underline: false,
        alignment: Alignment::Left,
    }
}

/// The style currently in effect.
pub open spec fn current_style(st: ParseState) -> Style {
    Style { fg: st.fg, bg: st.bg, bold: st.bold, italic: st.italic, underline: st.underline }
}

/// The full reset: colors and flags cleared, alignment back to left.
pub open spec fn reset_style(st: ParseState) -> ParseState {
    ParseState {
        fg: None,
        bg: None,
        bold: false,
        italic: false,
        underline: false,
        alignment: Alignment::Left,
        ..st
    }
}

fn current_style_exec(st: &ParseState) -> (r: Style)
    ensures
        r == current_style(*st),
{
    Style { fg: st.fg, bg: st.bg, bold: st.bold, italic: st.italic, underline: st.underline }
}

/// The color a three-character code denotes: `g` plus two decimal digits is a
/// gray level scaled from 0–99 to 0–255; otherwise each character is a hex
/// nibble replicated into a byte (nibble times 17), unreadable digits
/// counting zero.
pub open spec fn color_of(cs: Seq<char>) -> Color
    recommends
        cs.len() == 3,
{
    if cs[0] == 'g' {
        let b = match parse_uint_spec(cs.subrange(1, 3), 255) {
            Some(n) => n as nat,
            None => 0,
        };
        let v = ((b * 255) / 99) as u8;
        Color { r: v, g: v, b: v }
    } else {
        Color {
            r: (hex_digit_val(cs[0]) * 17) as u8,
            g: (hex_digit_val(cs[1]) * 17) as u8,
            b: (hex_digit_val(cs[2]) * 17) as u8,
        }
    }
}

/// Reads the color code `l[j..j+3]`.
fn color_exec(l: &Vec<char>, j: usize) -> (r: Color)
    requires
        j + 3 <= l@.len(),
    ensures
        r == color_of(l@.subrange(j as int, j + 3)),
{
    let ghost cs = l@.subrange(j as int, j + 3);
    let n = l.len();
    assert(j + 3 <= n);
    if l[j] == 'g' {
        let b: u64 = match parse_uint(l, j + 1, j + 3, 255) {
            Some(n) => n,
            None => 0,
        };
        proof {
            assert(l@.subrange(j + 1, j + 3) =~= cs.subrange(1, 3));
        }
        let v = ((b * 255) / 99) as u8;
        Color { r: v, g: v, b: v }
    } else {
        Color {
            r: hex_digit(l[j]) * 17,
            g: hex_digit(l[j + 1]) * 17,
            b: hex_digit(l[j + 2]) * 17,
        }
    }
}

/// Removes the `\r` that preceded a line feed, as `str::lines` does.
pub open spec fn strip_cr(l: Seq<char>) -> Seq<char> {
    if l.len() > 0 && l.last() == '\r' {
        l.drop_last()
    } else {
        l
    }
}

/// The physical lines of the input, as `str::lines` yields them: split at
/// `\n`, a `\r` immediately before the split removed, and a final line
/// ending producing no extra empty line.
pub open spec fn split_lines(s: Seq<char>) -> Seq<Seq<char>>
    decreases s.len(),
{
    if s.len() == 0 {
        Seq::empty()
    } else {
        let j = find_from(s, 0, '\n');
        if 0 <= j < s.len() {
            seq![strip_cr(s.subrange(0, j))] + split_lines(s.subrange(j + 1, s.len() as int))
        } else {
            seq![s]
        }
    }
}

/// Exec line splitting matching `split_lines`.
fn split_lines_exec(v: &Vec<char>) -> (r: Vec<Vec<char>>)
    ensures
        r.deep_view() == split_lines(v@),
{
    let mut acc: Vec<Vec<char>> = Vec::new();
    let mut start: usize = 0;
    proof {
        assert(v@.subrange(0, v@.len() as int) =~= v@);
        assert(acc.deep_view() =~= Seq::<Seq<char>>::empty());
        assert(acc.deep_view() + split_lines(v@) =~= split_lines(v@));
    }
    while start < v.len()
        invariant
            start <= v@.len(),
            split_lines(v@) == acc.deep_view() + split_lines(
                v@.subrange(start as int, v@.len() as int),
            ),
            start > 0 ==> start == v@.len() || v@[start - 1] == '\n',
        decreases v@.len() - start,
    {
        let ghost rest = v@.subrange(start as int, v@.len() as int);
        let j = find_char(v, start, '\n');
        proof {
            lemma_find_from(v@, start as int, '\n');
            lemma_find_from_offset(v@, start as int, '\n');
        }
        let ghost jr = find_from(rest, 0, '\n');
        if j < v.len() {
            let piece = if j > start && v[j - 1] == '\r' {
                subvec(v, start, j - 1)
            } else {
                subvec(v, start, j)
            };
            proof {
                assert(rest.subrange(0, jr) =~= v@.subrange(start as int, j as int));
                if j > start && v@[j - 1] == '\r' {
                    assert(piece@ =~= strip_cr(rest.subrange(0, jr)));
                } else {
                    assert(piece@ =~= strip_cr(rest.subrange(0, jr)));
                }
                assert(rest.subrange(jr + 1, rest.len() as int) =~= v@.subrange(
                    j + 1,
                    v@.len() as int,
                ));
                assert(split_lines(rest) == seq![strip_cr(rest.subrange(0, jr))] + split_lines(
                    v@.subrange(j + 1, v@.len() as int),
                ));
            }
            let ghost old_dv = acc.deep_view();
            acc.push(piece);
            proof {
                assert(acc.deep_view() =~~= old_dv + seq![strip_cr(rest.subrange(0, jr))]);
                assert(acc.deep_view() + split_lines(v@.subrange(j + 1, v@.len() as int)) =~~= (
                old_dv + split_lines(rest)));
            }
            start = j + 1;
        } else {
            let piece = subvec(v, start, v.len());
            proof {
                assert(jr == rest.len());
                assert(piece@ =~= rest);
                assert(rest.len() > 0);
                assert(split_lines(rest) == seq![rest]);
            }
            let ghost old_dv = acc.deep_view();
            acc.push(piece);
            proof {
                assert(acc.deep_view() =~~= old_dv + seq![rest]);
                assert(acc.deep_view() =~~= split_lines(v@));
            }
            return acc;
        }
    }
    proof {
        assert(v@.subrange(start as int, v@.len() as int) =~= Seq::<char>::empty());
        assert(split_lines(v@.subrange(start as int, v@.len() as int)) =~= Seq::<
            Seq<char>,
        >::empty());
        assert(acc.deep_view() + split_lines(v@.subrange(start as int, v@.len() as int)) =~~= (
        acc.deep_view()));
    }
    acc
}

/// The link a bracket body denotes. The body splits on `` ` `` into at most
/// three components — label, url, pipe-separated field specifiers; a single
/// component is the url; an empty label defaults to the url.
pub open spec fn link_of(body: Seq<char>, st: ParseState) -> LinkV {
    let comps = split_on(body, '`');
    let label = if comps.len() == 2 || comps.len() == 3 {
        comps[0]
    } else {
        Seq::<char>::empty()
    };
    let url = if comps.len() == 1 {
        comps[0]
    } else if comps.len() == 2 || comps.len() == 3 {
        comps[1]
    } else {
        Seq::<char>::empty()
    };
    let fstr = if comps.len() == 3 {
        comps[2]
    } else {
        Seq::<char>::empty()
    };
    let fields = if fstr.len() == 0 {
        Seq::<Seq<char>>::empty()
    } else {
        split_on(fstr, '|')
    };
    let eff_label = if label.len() == 0 {
        url
    } else {
        label
    };
    LinkV { label: eff_label, url: url, fields: fields, style: current_style(st) }
}

/// Builds the strings of one split piece list.
fn strings_of_pieces(pieces: &Vec<Vec<char>>) -> (r: Vec<String>)
    ensures
        r.deep_view() == pieces.deep_view(),
{
    let mut r: Vec<String> = Vec::new();
    let mut i: usize = 0;
    proof {
        assert(r.deep_view() =~= pieces.deep_view().subrange(0, 0));
    }
    while i < pieces.len()
        invariant
            i <= pieces@.len(),
            r.deep_view() == pieces.deep_view().subrange(0, i as int),
        decreases pieces@.len() - i,
    {
        let ghost old_dv = r.deep_view();
        let s = string_from_chars(&pieces[i]);
        proof {
            assert(s@ =~= pieces.deep_view()[i as int]);
        }
        r.push(s);
        i = i + 1;
        proof {
            assert(r.deep_view() =~~= old_dv.push(s@));
            assert(r.deep_view() =~~= pieces.deep_view().subrange(0, i as int));
        }
    }
    proof {
        assert(r.deep_view() =~~= pieces.deep_view());
    }
    r
}

/// Exec link construction matching `link_of`.
fn link_exec(body: &Vec<char>, st: &ParseState) -> (r: LinkElement)
    ensures
        r@ == link_of(body@, *st),
{
    let ghost spec_r = link_of(body@, *st);
    let comps = split_chars(body, '`');
    proof {
        assert(comps@.len() == comps.deep_view().len());
    }
    let n = comps.len();
    let empty: Vec<char> = Vec::new();
    let label_chars: &Vec<char> = if n == 2 || n == 3 {
        &comps[0]
    } else {
        &empty
    };
    let url_chars: &Vec<char> = if n == 1 {
        &comps[0]
    } else if n == 2 || n == 3 {
        &comps[1]
    } else {
        &empty
    };
    let ghost dv = comps.deep_view();
    let ghost spec_label = if dv.len() == 2 || dv.len() == 3 {
        dv[0]
    } else {
        Seq::<char>::empty()
    };
    let ghost spec_url = if dv.len() == 1 {
        dv[0]
    } else if dv.len() == 2 || dv.len() == 3 {
        dv[1]
    } else {
        Seq::<char>::empty()
    };
    proof {
        if n == 2 || n == 3 {
            assert(label_chars@ =~= spec_label);
        } else {
            assert(label_chars@ =~= spec_label);
        }
        assert(url_chars@ =~= spec_url);
    }
    let fields: Vec<String> = if n == 3 {
        let fstr = &comps[2];
        proof {
            assert(fstr@ =~= dv[2]);
        }
        if fstr.len() == 0 {
            Vec::new()
        } else {
            let pieces = split_chars(fstr, '|');
            strings_of_pieces(&pieces)
        }
    } else {
        Vec::new()
    };
    proof {
        assert(fields.deep_view() =~~= spec_r.fields);
    }
    let label = if label_chars.len() == 0 {
        string_from_chars(url_chars)
    } else {
        string_from_chars(label_chars)
    };
    let url = string_from_chars(url_chars);
    let r = LinkElement { label, url, fields, style: current_style_exec(st) };
    proof {
        assert(r@.label == spec_r.label);
        assert(r@.url == spec_r.url);
        assert(r@.fields == spec_r.fields);
        assert(r@ == spec_r);
    }
    r
}

/// A checkbox or radio field body: optional leading `|`, name up to `|`,
/// value up to `` ` `` or `|`, an optional `|*` marking it checked, then
/// `` ` `` and the label up to `>`. `j` is the position after the markers;
/// the result holds the position after `>`.
pub open spec fn choice_field_spec(l: Seq<char>, j: int, is_cb: bool) -> Option<(int, FieldV)> {
    let j4 = if j < l.len() && l[j] == '|' {
        j + 1
    } else {
        j
    };
    let npos = find_from(l, j4, '|');
    if npos >= l.len() {
        None
    } else {
        let name = l.subrange(j4, npos);
        let vpos = find_from2(l, npos + 1, '`', '|');
        let value = l.subrange(npos + 1, vpos);
        let checked = vpos < l.len() && l[vpos] == '|' && vpos + 1 < l.len() && l[vpos + 1] == '*';
        let j5 = if checked {
            vpos + 2
        } else {
            vpos
        };
        if j5 < l.len() && l[j5] == '`' {
            let lpos = find_from(l, j5 + 1, '>');
            if lpos >= l.len() {
                None
            } else {
                let label = l.subrange(j5 + 1, lpos);
                let kind = if is_cb {
                    FieldKindV::Checkbox { checked }
                } else {
                    FieldKindV::Radio {
                        value: if value.len() == 0 {
                            label
                        } else {
                            value
                        },
                        checked,
                    }
                };
                Some(
                    (
                        lpos + 1,
                        FieldV { name, default: label, width: None, masked: false, kind },
                    ),
                )
            }
        } else {
            None
        }
    }
}

/// A plain text field body: `width|name` or a bare name up to `` ` ``, then
/// the default value up to `>`.
pub open spec fn text_field_spec(l: Seq<char>, j: int, masked: bool) -> Option<(int, FieldV)> {
    let wpos = find_from(l, j, '`');
    if wpos >= l.len() {
        None
    } else {
        let wn = l.subrange(j, wpos);
        let p = find_from(wn, 0, '|');
        let width = if p < wn.len() {
            match parse_uint_spec(wn.subrange(0, p), 65535) {
                Some(n) => Some(n as u16),
                None => None::<u16>,
            }
        } else {
            None::<u16>
        };
        let name = if p < wn.len() {
            wn.subrange(p + 1, wn.len() as int)
        } else {
            wn
        };
        let dpos = find_from(l, wpos + 1, '>');
        if dpos >= l.len() {
            None
        } else {
            Some(
                (
                    dpos + 1,
                    FieldV {
                        name,
                        default: l.subrange(wpos + 1, dpos),
                        width,
                        masked,
                        kind: FieldKindV::Text,
                    },
                ),
            )
        }
    }
}

/// A field construct starting right after `` `< `` at `j`: an optional `!`
/// (masked), `?` (checkbox) and `^` (radio) marker, then the matching body.
pub open spec fn field_spec(l: Seq<char>, j: int) -> Option<(int, FieldV)> {
    let j1 = if j < l.len() && l[j] == '!' {
        j + 1
    } else {
        j
    };
    let masked = j1 != j;
    let j2 = if j1 < l.len() && l[j1] == '?' {
        j1 + 1
    } else {
        j1
    };
    let is_cb = j2 != j1;
    let j3 = if j2 < l.len() && l[j2] == '^' {
        j2 + 1
    } else {
        j2
    };
    let is_rad = j3 != j2;
    if is_cb || is_rad {
        choice_field_spec(l, j3, is_cb)
    } else {
        text_field_spec(l, j3, masked)
    }
}

/// Exec field parsing matching `field_spec`.
fn field_exec(l: &Vec<char>, j: usize) -> (r: Option<(usize, Field)>)
    requires
        j <= l@.len(),
    ensures
        match r {
            Some((end, f)) => field_spec(l@, j as int) == Some((end as int, f@)) && j <= end
                <= l@.len(),
            None => field_spec(l@, j as int) is None,
        },
{
    let n = l.len();
    let j1 = if j < n && l[j] == '!' {
        j + 1
    } else {
        j
    };
    let masked = j1 != j;
    let j2 = if j1 < n && l[j1] == '?' {
        j1 + 1
    } else {
        j1
    };
    let is_cb = j2 != j1;
    let j3 = if j2 < n && l[j2] == '^' {
        j2 + 1
    } else {
        j2
    };
    let is_rad = j3 != j2;
    if is_cb || is_rad {
        choice_field_exec(l, j3, is_cb)
    } else {
        text_field_exec(l, j3, masked)
    }
}

/// Exec checkbox/radio body parsing matching `choice_field_spec`.
fn choice_field_exec(l: &Vec<char>, j: usize, is_cb: bool) -> (r: Option<(usize, Field)>)
    requires
        j <= l@.len(),
    ensures
        match r {
            Some((end, f)) => choice_field_spec(l@, j as int, is_cb) == Some((end as int, f@)) && j
                <= end <= l@.len(),
            None => choice_field_spec(l@, j as int, is_cb) is None,
        },
{
    let n = l.len();
    let j4 = if j < n && l[j] == '|' {
        j + 1
    } else {
        j
    };
    let npos = find_char(l, j4, '|');
    proof {
        lemma_find_from(l@, j4 as int, '|');
    }
    if npos >= n {
        return None;
    }
    let name = subvec(l, j4, npos);
    let vpos = find_char2(l, npos + 1, '`', '|');
    proof {
        lemma_find_from2(l@, npos + 1, '`', '|');
    }
    let value = subvec(l, npos + 1, vpos);
    let checked = vpos < n && l[vpos] == '|' && vpos + 1 < n && l[vpos + 1] == '*';
    let j5 = if checked {
        vpos + 2
    } else {
        vpos
    };
    if j5 < n && l[j5] == '`' {
        let lpos = find_char(l, j5 + 1, '>');
        proof {
            lemma_find_from(l@, j5 + 1, '>');
        }
        if lpos >= n {
            return None;
        }
        let label = subvec(l, j5 + 1, lpos);
        let kind = if is_cb {
            FieldKind::Checkbox { checked }
        } else {
            FieldKind::Radio {
                value: if value.len() == 0 {
                    string_from_chars(&label)
                } else {
                    string_from_chars(&value)
                },
                checked,
            }
        };
        let f = Field {
            name: string_from_chars(&name),
            default: string_from_chars(&label),
            width: None,
            masked: false,
            kind,
        };
        Some((lpos + 1, f))
    } else {
        None
    }
}

/// Exec text-field body parsing matching `text_field_spec`.
fn text_field_exec(l: &Vec<char>, j: usize, masked: bool) -> (r: Option<(usize, Field)>)
    requires
        j <= l@.len(),
    ensures
        match r {
            Some((end, f)) => text_field_spec(l@, j as int, masked) == Some((end as int, f@)) && j
                <= end <= l@.len(),
            None => text_field_spec(l@, j as int, masked) is None,
        },
{
    let n = l.len();
    let wpos = find_char(l, j, '`');
    proof {
        lemma_find_from(l@, j as int, '`');
    }
    if wpos >= n {
        return None;
    }
    let wn = subvec(l, j, wpos);
    let p = find_char(&wn, 0, '|');
    proof {
        lemma_find_from(wn@, 0, '|');
    }
    let width: Option<u16> = if p < wn.len() {
        match parse_uint(&wn, 0, p, 65535) {
            Some(v) => Some(v as u16),
            None => None,
        }
    } else {
        None
    };
    proof {
        if p < wn@.len() {
            assert(wn@.subrange(0, p as int) == wn@.subrange(0, p as int));
        }
    }
    let name = if p < wn.len() {
        subvec(&wn, p + 1, wn.len())
    } else {
        subvec(&wn, 0, wn.len())
    };
    proof {
        assert(wn@.subrange(0, wn@.len() as int) =~= wn@);
    }
    let dpos = find_char(l, wpos + 1, '>');
    proof {
        lemma_find_from(l@, wpos + 1, '>');
    }
    if dpos >= n {
        return None;
    }
    let default = subvec(l, wpos + 1, dpos);
    let f = Field {
        name: string_from_chars(&name),
        default: string_from_chars(&default),
        width,
        masked,
        kind: FieldKind::Text,
    };
    Some((dpos + 1, f))
}

/// A transclusion construct starting right after `` `{ `` at `j`: url up to
/// `` ` `` or `}`, an optional `` ` ``-delimited refresh count, an optional
/// `` ` ``-delimited pipe-separated field list, then the required `}`.
pub open spec fn partial_spec(l: Seq<char>, j: int) -> Option<(int, PartialV)> {
    let upos = find_from2(l, j, '`', '}');
    if upos >= l.len() {
        None
    } else {
        let url = l.subrange(j, upos);
        if l[upos] == '`' {
            let rpos = find_from2(l, upos + 1, '`', '}');
            let refresh = match parse_uint_spec(l.subrange(upos + 1, rpos), 0xFFFF_FFFF) {
                Some(n) => Some(n as u32),
                None => None::<u32>,
            };
            if rpos < l.len() && l[rpos] == '`' {
                let fpos = find_from(l, rpos + 1, '}');
                if fpos >= l.len() {
                    None
                } else {
                    Some(
                        (
                            fpos + 1,
                            PartialV {
                                url,
                                refresh,
                                fields: split_on(l.subrange(rpos + 1, fpos), '|'),
                            },
                        ),
                    )
                }
            } else if rpos < l.len() {
                Some((rpos + 1, PartialV { url, refresh, fields: Seq::empty() }))
            } else {
                None
            }
        } else {
            Some((upos + 1, PartialV { url, refresh: None, fields: Seq::empty() }))
        }
    }
}

/// Exec transclusion parsing matching `partial_spec`.
fn partial_exec(l: &Vec<char>, j: usize) -> (r: Option<(usize, Partial)>)
    requires
        j <= l@.len(),
    ensures
        match r {
            Some((end, p)) => partial_spec(l@, j as int) == Some((end as int, p@)) && j <= end
                <= l@.len(),
            None => partial_spec(l@, j as int) is None,
        },
{
    let n = l.len();
    let upos = find_char2(l, j, '`', '}');
    proof {
        lemma_find_from2(l@, j as int, '`', '}');
    }
    if upos >= n {
        return None;
    }
    let url = subvec(l, j, upos);
    if l[upos] == '`' {
        let rpos = find_char2(l, upos + 1, '`', '}');
        proof {
            lemma_find_from2(l@, upos + 1, '`', '}');
        }
        let refresh: Option<u32> = match parse_uint(l, upos + 1, rpos, 0xFFFF_FFFF) {
            Some(v) => Some(v as u32),
            None => None,
        };
        if rpos < n && l[rpos] == '`' {
            let fpos = find_char(l, rpos + 1, '}');
            proof {
                lemma_find_from(l@, rpos + 1, '}');
            }
            if fpos >= n {
                return None;
            }
            let fstr = subvec(l, rpos + 1, fpos);
            let pieces = split_chars(&fstr, '|');
            let p = Partial {
                url: string_from_chars(&url),
                refresh,
                fields: strings_of_pieces(&pieces),
            };
            Some((fpos + 1, p))
        } else if rpos < n {
            let p = Partial { url: string_from_chars(&url), refresh, fields: Vec::new() };
            proof {
                assert(p@.fields =~~= Seq::<Seq<char>>::empty());
            }
            Some((rpos + 1, p))
        } else {
            None
        }
    } else {
        let p = Partial { url: string_from_chars(&url), refresh: None, fields: Vec::new() };
        proof {
            assert(p@.fields =~~= Seq::<Seq<char>>::empty());
        }
        Some((upos + 1, p))
    }
}

pub proof fn lemma_choice_field_spec_bounds(l: Seq<char>, j: int, is_cb: bool)
    requires
        0 <= j <= l.len(),
    ensures
        choice_field_spec(l, j, is_cb) matches Some(rp) ==> j <= rp.0 <= l.len(),
{
    let j4 = if j < l.len() && l[j] == '|' {
        j + 1
    } else {
        j
    };
    lemma_find_from(l, j4, '|');
    let npos = find_from(l, j4, '|');
    if npos < l.len() {
        lemma_find_from2(l, npos + 1, '`', '|');
        let vpos = find_from2(l, npos + 1, '`', '|');
        let checked = vpos < l.len() && l[vpos] == '|' && vpos + 1 < l.len() && l[vpos + 1] == '*';
        let j5 = if checked {
            vpos + 2
        } else {
            vpos
        };
        if j5 < l.len() && l[j5] == '`' {
            lemma_find_from(l, j5 + 1, '>');
        }
    }
}

pub proof fn lemma_text_field_spec_bounds(l: Seq<char>, j: int, masked: bool)
    requires
        0 <= j <= l.len(),
    ensures
        text_field_spec(l, j, masked) matches Some(rp) ==> j <= rp.0 <= l.len(),
{
    lemma_find_from(l, j, '`');
    let wpos = find_from(l, j, '`');
    if wpos < l.len() {
        lemma_find_from(l, wpos + 1, '>');
    }
}

pub proof fn lemma_field_spec_bounds(l: Seq<char>, j: int)
    requires
        0 <= j <= l.len(),
    ensures
        field_spec(l, j) matches Some(rp) ==> j <= rp.0 <= l.len(),
{
    let j1 = if j < l.len() && l[j] == '!' {
        j + 1
    } else {
        j
    };
    let j2 = if j1 < l.len() && l[j1] == '?' {
        j1 + 1
    } else {
        j1
    };
    let j3 = if j2 < l.len() && l[j2] == '^' {
        j2 + 1
    } else {
        j2
    };
    lemma_choice_field_spec_bounds(l, j3, j2 != j1);
    lemma_text_field_spec_bounds(l, j3, j1 != j);
}

pub proof fn lemma_partial_spec_bounds(l: Seq<char>, j: int)
    requires
        0 <= j <= l.len(),
    ensures
        partial_spec(l, j) matches Some(rp) ==> j <= rp.0 <= l.len(),
{
    lemma_find_from2(l, j, '`', '}');
    let upos = find_from2(l, j, '`', '}');
    if upos < l.len() && l[upos] == '`' {
        lemma_find_from2(l, upos + 1, '`', '}');
        let rpos = find_from2(l, upos + 1, '`', '}');
        if rpos < l.len() && l[rpos] == '`' {
            lemma_find_from(l, rpos + 1, '}');
        }
    }
}

/// One backtick command at `j`, the position right after the backtick: the
/// position scanning resumes at, the element the command produced if any, and
/// the state after it. An unrecognized command byte is dropped without
/// consuming the byte after it; an unterminated link, field or transclusion
/// drops the command and scanning resumes right after the opener.
pub open spec fn do_cmd(l: Seq<char>, j: int, st: ParseState) -> (int, Option<ElemV>, ParseState) {
    if j >= l.len() {
        (j, None::<ElemV>, st)
    } else {
        let c = l[j];
        if c == '!' {
            (j + 1, None::<ElemV>, ParseState { bold: !st.bold, ..st })
        } else if c == '*' {
            (j + 1, None::<ElemV>, ParseState { italic: !st.italic, ..st })
        } else if c == '_' {
            (j + 1, None::<ElemV>, ParseState { underline: !st.underline, ..st })
        } else if c == 'F' {
            if l.len() - (j + 1) >= 3 {
                (
                    j + 4,
                    None::<ElemV>,
                    ParseState { fg: Some(color_of(l.subrange(j + 1, j + 4))), ..st },
                )
            } else {
                (j + 1, None::<ElemV>, st)
            }
        } else if c == 'f' {
            (j + 1, None::<ElemV>, ParseState { fg: None, ..st })
        } else if c == 'B' {
            if l.len() - (j + 1) >= 3 {
                (
                    j + 4,
                    None::<ElemV>,
                    ParseState { bg: Some(color_of(l.subrange(j + 1, j + 4))), ..st },
                )
            } else {
                (j + 1, None::<ElemV>, st)
            }
        } else if c == 'b' {
            (j + 1, None::<ElemV>, ParseState { bg: None, ..st })
        } else if c == '`' {
            (j + 1, None::<ElemV>, reset_style(st))
        } else if c == 'c' {
            (j + 1, None::<ElemV>, ParseState { alignment: Alignment::Center, ..st })
        } else if c == 'l' {
            (j + 1, None::<ElemV>, ParseState { alignment: Alignment::Left, ..st })
        } else if c == 'r' {
            (j + 1, None::<ElemV>, ParseState { alignment: Alignment::Right, ..st })
        } else if c == 'a' {
            (j + 1, None::<ElemV>, ParseState { alignment: Alignment::Left, ..st })
        } else if c == '=' {
            (j + 1, None::<ElemV>, st)
        } else if c == '[' {
            let close = find_from(l, j + 1, ']');
            if close < l.len() {
                (close + 1, Some(ElemV::Link(link_of(l.subrange(j + 1, close), st))), st)
            } else {
                (j + 1, None::<ElemV>, st)
            }
        } else if c == '<' {
            match field_spec(l, j + 1) {
                Some(rp) => (rp.0, Some(ElemV::Field(rp.1)), st),
                None => (j + 1, None::<ElemV>, st),
            }
        } else if c == '{' {
            match partial_spec(l, j + 1) {
                Some(rp) => (rp.0, Some(ElemV::Partial(rp.1)), st),
                None => (j + 1, None::<ElemV>, st),
            }
        } else {
            (j, None::<ElemV>, st)
        }
    }
}

pub proof fn lemma_do_cmd_bounds(l: Seq<char>, j: int, st: ParseState)
    requires
        0 <= j <= l.len(),
    ensures
        j <= do_cmd(l, j, st).0 <= l.len(),
{
    if j < l.len() {
        lemma_find_from(l, j + 1, ']');
        lemma_field_spec_bounds(l, j + 1);
        lemma_partial_spec_bounds(l, j + 1);
    }
}

/// Appends the pending text buffer, if any, as a text element.
pub open spec fn flush_acc(buf: Seq<char>, st: ParseState, acc: Seq<ElemV>) -> Seq<ElemV> {
    if buf.len() > 0 {
        acc.push(ElemV::Text(TextV { text: buf, style: current_style(st) }))
    } else {
        acc
    }
}

/// Records the line's frozen alignment the first time an element is emitted.
pub open spec fn flush_fta(buf: Seq<char>, st: ParseState, fta: Option<Alignment>) -> Option<
    Alignment,
> {
    if buf.len() > 0 && fta is None {
        Some(st.alignment)
    } else {
        fta
    }
}

/// The inline scanner over the remainder of one line, from position `i`. It
/// carries the whole machine state: parser state `st`, pending text `buf`,
/// pending escape `esc`, the alignment frozen at the first element `fta`, and
/// the elements emitted so far `acc`. Returns the final elements, state, and
/// frozen alignment.
pub open spec fn scan(
    l: Seq<char>,
    i: int,
    st: ParseState,
    buf: Seq<char>,
    esc: bool,
    fta: Option<Alignment>,
    acc: Seq<ElemV>,
) -> (Seq<ElemV>, ParseState, Option<Alignment>)
    decreases l.len() - i,
    when 0 <= i <= l.len()
    via scan_dec
{
    if i >= l.len() {
        (flush_acc(buf, st, acc), st, flush_fta(buf, st, fta))
    } else if st.literal_mode {
        if i + 3 == l.len() && l[i] == '\\' && l[i + 1] == '`' && l[i + 2] == '=' {
            scan(l, i + 3, st, buf.push('`').push('='), esc, fta, acc)
        } else {
            scan(l, i + 1, st, buf.push(l[i]), esc, fta, acc)
        }
    } else if l[i] == '\\' {
        if esc {
            scan(l, i + 1, st, buf.push('\\'), false, fta, acc)
        } else {
            scan(l, i + 1, st, buf, true, fta, acc)
        }
    } else if l[i] == '`' && !esc {
        let acc1 = flush_acc(buf, st, acc);
        let fta1 = flush_fta(buf, st, fta);
        let cmd = do_cmd(l, i + 1, st);
        match cmd.1 {
            Some(e) => scan(
                l,
                cmd.0,
                cmd.2,
                Seq::empty(),
                false,
                if fta1 is None {
                    Some(cmd.2.alignment)
                } else {
                    fta1
                },
                acc1.push(e),
            ),
            None => scan(l, cmd.0, cmd.2, Seq::empty(), false, fta1, acc1),
        }
    } else if l[i] == '`' {
        scan(l, i + 1, st, buf.push('`'), false, fta, acc)
    } else {
        scan(l, i + 1, st, buf.push(l[i]), false, fta, acc)
    }
}

#[via_fn]
proof fn scan_dec(
    l: Seq<char>,
    i: int,
    st: ParseState,
    buf: Seq<char>,
    esc: bool,
    fta: Option<Alignment>,
    acc: Seq<ElemV>,
) {
    if 0 <= i < l.len() {
        lemma_do_cmd_bounds(l, i + 1, st);
    }
}

/// The views of a sequence of elements.
pub open spec fn elems_view(es: Seq<Element>) -> Seq<ElemV> {
    Seq::new(es.len(), |i: int| es[i]@)
}

/// The view of an optional element.
pub open spec fn opt_elem_view(o: Option<Element>) -> Option<ElemV> {
    match o {
        Some(e) => Some(e@),
        None => None,
    }
}

/// Exec command handling matching `do_cmd`.
fn do_cmd_exec(l: &Vec<char>, j: usize, st: ParseState) -> (r: (usize, Option<Element>, ParseState))
    requires
        j <= l@.len(),
    ensures
        ({
            let sp = do_cmd(l@, j as int, st);
            r.0 == sp.0 && opt_elem_view(r.1) == sp.1 && r.2 == sp.2 && j <= r.0 <= l@.len()
        }),
{
    proof {
        lemma_do_cmd_bounds(l@, j as int, st);
    }
    let n = l.len();
    if j >= n {
        return (j, None, st);
    }
    let c = l[j];
    if c == '!' {
        (j + 1, None, ParseState { bold: !st.bold, ..st })
    } else if c == '*' {
        (j + 1, None, ParseState { italic: !st.italic, ..st })
    } else if c == '_' {
        (j + 1, None, ParseState { underline: !st.underline, ..st })
    } else if c == 'F' {
        if n - (j + 1) >= 3 {
            let col = color_exec(l, j + 1);
            (j + 4, None, ParseState { fg: Some(col), ..st })
        } else {
            (j + 1, None, st)
        }
    } else if c == 'f' {
        (j + 1, None, ParseState { fg: None, ..st })
    } else if c == 'B' {
        if n - (j + 1) >= 3 {
            let col = color_exec(l, j + 1);
            (j + 4, None, ParseState { bg: Some(col), ..st })
        } else {
            (j + 1, None, st)
        }
    } else if c == 'b' {
        (j + 1, None, ParseState { bg: None, ..st })
    } else if c == '`' {
        (
            j + 1,
            None,
            ParseState {
                fg: None,
                bg: None,
                bold: false,
                italic: false,
                underline: false,
                alignment: Alignment::Left,
                ..st
            },
        )
    } else if c == 'c' {
        (j + 1, None, ParseState { alignment: Alignment::Center, ..st })
    } else if c == 'l' {
        (j + 1, None, ParseState { alignment: Alignment::Left, ..st })
    } else if c == 'r' {
        (j + 1, None, ParseState { alignment: Alignment::Right, ..st })
    } else if c == 'a' {
        (j + 1, None, ParseState { alignment: Alignment::Left, ..st })
    } else if c == '=' {
        (j + 1, None, st)
    } else if c == '[' {
        let close = find_char(l, j + 1, ']');
        proof {
            lemma_find_from(l@, j + 1, ']');
        }
        if close < n {
            let body = subvec(l, j + 1, close);
            let link = link_exec(&body, &st);
            (close + 1, Some(Element::Link(link)), st)
        } else {
            (j + 1, None, st)
        }
    } else if c == '<' {
        match field_exec(l, j + 1) {
            Some((end, f)) => (end, Some(Element::Field(f)), st),
            None => (j + 1, None, st),
        }
    } else if c == '{' {
        match partial_exec(l, j + 1) {
            Some((end, p)) => (end, Some(Element::Partial(p)), st),
            None => (j + 1, None, st),
        }
    } else {
        (j, None, st)
    }
}

/// Exec inline scanning matching `scan`, starting at `from` with an empty
/// buffer and accumulator and the given pending escape.
fn scan_exec(l: &Vec<char>, from: usize, st0: ParseState, pre_escape: bool) -> (r: (
    Vec<Element>,
    ParseState,
    Option<Alignment>,
))
    requires
        from <= l@.len(),
    ensures
        ({
            let sp = scan(
                l@,
                from as int,
                st0,
                Seq::empty(),
                pre_escape,
                None::<Alignment>,
                Seq::empty(),
            );
            elems_view(r.0@) == sp.0 && r.1 == sp.1 && r.2 == sp.2
        }),
{
    let ghost sp = scan(
        l@,
        from as int,
        st0,
        Seq::empty(),
        pre_escape,
        None::<Alignment>,
        Seq::empty(),
    );
    let mut i: usize = from;
    let mut st = st0;
    let mut buf: Vec<char> = Vec::new();
    let mut esc = pre_escape;
    let mut fta: Option<Alignment> = None;
    let mut acc: Vec<Element> = Vec::new();
    proof {
        assert(buf@ =~= Seq::<char>::empty());
        assert(elems_view(acc@) =~= Seq::<ElemV>::empty());
    }
    while i < l.len()
        invariant
            i <= l@.len(),
            sp == scan(l@, i as int, st, buf@, esc, fta, elems_view(acc@)),
        decreases l@.len() - i,
    {
        let c = l[i];
        if st.literal_mode {
            if l.len() - i == 3 && c == '\\' && l[i + 1] == '`' && l[i + 2] == '=' {
                buf.push('`');
                buf.push('=');
                i = i + 3;
            } else {
                buf.push(c);
                i = i + 1;
            }
        } else if c == '\\' {
            if esc {
                buf.push('\\');
                esc = false;
            } else {
                esc = true;
            }
            i = i + 1;
        } else if c == '`' && !esc {
            let ghost acc1 = flush_acc(buf@, st, elems_view(acc@));
            let ghost fta1 = flush_fta(buf@, st, fta);
            if buf.len() > 0 {
                let text = string_from_chars(&buf);
                let ghost old_ev = elems_view(acc@);
                acc.push(
                    Element::Text(StyledText { text, style: current_style_exec(&st) }),
                );
                proof {
                    assert(elems_view(acc@) =~= acc1);
                }
                if fta.is_none() {
                    fta = Some(st.alignment);
                }
                buf = Vec::new();
            }
            proof {
                assert(elems_view(acc@) == acc1);
                assert(fta == fta1);
                assert(buf@ =~= Seq::<char>::empty());
            }
            let (next, elem, st2) = do_cmd_exec(l, i + 1, st);
            st = st2;
            match elem {
                Some(e) => {
                    let ghost before_ev = elems_view(acc@);
                    if fta.is_none() {
                        fta = Some(st.alignment);
                    }
                    acc.push(e);
                    proof {
                        assert(elems_view(acc@) =~= before_ev.push(e@));
                    }
                },
                None => {},
            }
            esc = false;
            i = next;
        } else if c == '`' {
            buf.push('`');
            esc = false;
            i = i + 1;
        } else {
            buf.push(c);
            esc = false;
            i = i + 1;
        }
    }
    if buf.len() > 0 {
        let ghost acc_before = elems_view(acc@);
        let text = string_from_chars(&buf);
        acc.push(Element::Text(StyledText { text, style: current_style_exec(&st) }));
        proof {
            assert(elems_view(acc@) =~= acc_before.push(
                ElemV::Text(TextV { text: buf@, style: current_style(st) }),
            ));
        }
        if fta.is_none() {
            fta = Some(st.alignment);
        }
    }
    (acc, st, fta)
}

/// Whether the raw line holds the two-character sequence `` `< `` anywhere:
/// such a line is never taken for a heading, so literal field markup behind
/// leading `>` is not mistaken for one.
pub open spec fn has_field_mark(l: Seq<char>) -> bool {
    exists|k: int| 0 <= k && k + 1 < l.len() && #[trigger] l[k] == '`' && l[k + 1] == '<'
}

fn has_field_mark_exec(l: &Vec<char>) -> (r: bool)
    ensures
        r == has_field_mark(l@),
{
    let mut k: usize = 0;
    while l.len() > 0 && k < l.len() - 1
        invariant
            k <= l@.len(),
            forall|m: int| 0 <= m && m + 1 < l@.len() && m < k ==> !(#[trigger] l@[m] == '`' && l@[m + 1]
                == '<'),
        decreases l@.len() - k,
    {
        if l[k] == '`' && l[k + 1] == '<' {
            return true;
        }
        k = k + 1;
    }
    false
}

/// The position of the first character that is not `>`.
pub open spec fn skip_gt_from(l: Seq<char>, i: int) -> int
    decreases l.len() - i,
{
    if 0 <= i < l.len() && l[i] == '>' {
        skip_gt_from(l, i + 1)
    } else {
        i
    }
}

fn skip_gt_exec(l: &Vec<char>) -> (r: usize)
    ensures
        r == skip_gt_from(l@, 0),
        r <= l@.len(),
{
    let mut i: usize = 0;
    while i < l.len() && l[i] == '>'
        invariant
            i <= l@.len(),
            skip_gt_from(l@, 0) == skip_gt_from(l@, i as int),
        decreases l@.len() - i,
    {
        i = i + 1;
    }
    i
}

/// A line whose remainder from `from` is inline-scanned, with the given kind
/// and indent depth. The line's alignment is the one frozen at its first
/// element, or the alignment in force when scanning began.
pub open spec fn scanned_line(
    l: Seq<char>,
    from: int,
    st: ParseState,
    pre: bool,
    kind: LineKind,
    depth: u8,
) -> (Option<LineV>, ParseState) {
    let r = scan(l, from, st, Seq::empty(), pre, None::<Alignment>, Seq::empty());
    let algn = match r.2 {
        Some(a) => a,
        None => st.alignment,
    };
    (
        Some(LineV { kind, indent_depth: depth, alignment: algn, elements: r.0 }),
        r.1,
    )
}

/// One physical line: the document line it contributes, if any, and the state
/// it leaves behind. First match wins, and only outside literal mode: the
/// exact line `` `= `` toggles literal mode; a line starting `>` that holds
/// `` `< `` sheds its leading `>`; one leading `\` suppresses the structural
/// rules; then `#` comments, `` `{ `` transclusions, `<` indent reset, one to
/// three `>` headings, `-` dividers, and plain inline content.
pub open spec fn parse_line_spec(l: Seq<char>, st: ParseState) -> (Option<LineV>, ParseState) {
    if l.len() == 2 && l[0] == '`' && l[1] == '=' {
        (None::<LineV>, ParseState { literal_mode: !st.literal_mode, ..st })
    } else if st.literal_mode {
        scanned_line(l, 0, st, false, LineKind::Normal, st.depth)
    } else {
        let l1 = if l.len() > 0 && l[0] == '>' && has_field_mark(l) {
            l.subrange(skip_gt_from(l, 0), l.len() as int)
        } else {
            l
        };
        let pre = l1.len() > 0 && l1[0] == '\\';
        let l2 = if pre {
            l1.drop_first()
        } else {
            l1
        };
        if !pre && l2.len() > 0 && l2[0] == '#' {
            (
                Some(
                    LineV {
                        kind: LineKind::Comment,
                        indent_depth: st.depth,
                        alignment: st.alignment,
                        elements: Seq::empty(),
                    },
                ),
                st,
            )
        } else if !pre && l2.len() >= 2 && l2[0] == '`' && l2[1] == '{' {
            scanned_line(l2, 0, st, false, LineKind::Normal, st.depth)
        } else if !pre && l2.len() > 0 && l2[0] == '<' {
            scanned_line(l2, 1, ParseState { depth: 0, ..st }, false, LineKind::Normal, 0)
        } else if !pre && l2.len() >= 3 && l2[0] == '>' && l2[1] == '>' && l2[2] == '>' {
            scanned_line(
                l2,
                3,
                ParseState { depth: 3, ..st },
                false,
                LineKind::Heading(3),
                3,
            )
        } else if !pre && l2.len() >= 2 && l2[0] == '>' && l2[1] == '>' {
            scanned_line(
                l2,
                2,
                ParseState { depth: 2, ..st },
                false,
                LineKind::Heading(2),
                2,
            )
        } else if !pre && l2.len() >= 1 && l2[0] == '>' {
            scanned_line(
                l2,
                1,
                ParseState { depth: 1, ..st },
                false,
                LineKind::Heading(1),
                1,
            )
        } else if !pre && l2.len() > 0 && l2[0] == '-' {
            let ch = if l2.len() >= 2 {
                if (l2[1] as u32) < 32 {
                    '\u{2500}'
                } else {
                    l2[1]
                }
            } else {
                '\u{2500}'
            };
            (
                Some(
                    LineV {
                        kind: LineKind::Divider(ch),
                        indent_depth: st.depth,
                        alignment: st.alignment,
                        elements: Seq::empty(),
                    },
                ),
                st,
            )
        } else {
            scanned_line(l2, 0, st, pre, LineKind::Normal, st.depth)
        }
    }
}

/// The view of an optional line.
pub open spec fn opt_line_view(o: Option<Line>) -> Option<LineV> {
    match o {
        Some(l) => Some(l@),
        None => None,
    }
}

/// Builds the line a scan produced.
fn build_scanned_line(
    l: &Vec<char>,
    from: usize,
    st: ParseState,
    pre: bool,
    kind: LineKind,
    depth: u8,
) -> (r: (Option<Line>, ParseState))
    requires
        from <= l@.len(),
    ensures
        ({
            let sp = scanned_line(l@, from as int, st, pre, kind, depth);
            opt_line_view(r.0) == sp.0 && r.1 == sp.1
        }),
{
    let (elements, st1, fta) = scan_exec(l, from, st, pre);
    let algn = match fta {
        Some(a) => a,
        None => st.alignment,
    };
    let line = Line { kind, indent_depth: depth, alignment: algn, elements };
    proof {
        assert(line@.elements =~= elems_view(line.elements@));
    }
    (Some(line), st1)
}

/// Exec line dispatch matching `parse_line_spec`.
fn parse_line_exec(l: &Vec<char>, st: ParseState) -> (r: (Option<Line>, ParseState))
    ensures
        ({
            let sp = parse_line_spec(l@, st);
            opt_line_view(r.0) == sp.0 && r.1 == sp.1
        }),
{
    if l.len() == 2 && l[0] == '`' && l[1] == '=' {
        return (None, ParseState { literal_mode: !st.literal_mode, ..st });
    }
    if st.literal_mode {
        return build_scanned_line(l, 0, st, false, LineKind::Normal, st.depth);
    }
    let l1 = if l.len() > 0 && l[0] == '>' && has_field_mark_exec(l) {
        let g = skip_gt_exec(l);
        subvec(l, g, l.len())
    } else {
        subvec(l, 0, l.len())
    };
    proof {
        assert(l@.subrange(0, l@.len() as int) =~= l@);
    }
    let pre = l1.len() > 0 && l1[0] == '\\';
    let l2 = if pre {
        subvec(&l1, 1, l1.len())
    } else {
        subvec(&l1, 0, l1.len())
    };
    proof {
        if pre {
            assert(l2@ =~= l1@.drop_first());
        } else {
            assert(l2@ =~= l1@);
        }
    }
    if !pre && l2.len() > 0 && l2[0] == '#' {
        let line = Line {
            kind: LineKind::Comment,
            indent_depth: st.depth,
            alignment: st.alignment,
            elements: Vec::new(),
        };
        proof {
            assert(line@.elements =~= Seq::<ElemV>::empty());
        }
        (Some(line), st)
    } else if !pre && l2.len() >= 2 && l2[0] == '`' && l2[1] == '{' {
        build_scanned_line(&l2, 0, st, false, LineKind::Normal, st.depth)
    } else if !pre && l2.len() >= 1 && l2[0] == '<' {
        build_scanned_line(&l2, 1, ParseState { depth: 0, ..st }, false, LineKind::Normal, 0)
    } else if !pre && l2.len() >= 3 && l2[0] == '>' && l2[1] == '>' && l2[2] == '>' {
        build_scanned_line(&l2, 3, ParseState { depth: 3, ..st }, false, LineKind::Heading(3), 3)
    } else if !pre && l2.len() >= 2 && l2[0] == '>' && l2[1] == '>' {
        build_scanned_line(&l2, 2, ParseState { depth: 2, ..st }, false, LineKind::Heading(2), 2)
    } else if !pre && l2.len() >= 1 && l2[0] == '>' {
        build_scanned_line(&l2, 1, ParseState { depth: 1, ..st }, false, LineKind::Heading(1), 1)
    } else if !pre && l2.len() >= 1 && l2[0] == '-' {
        let ch = if l2.len() >= 2 {
            if (l2[1] as u32) < 32 {
                '\u{2500}'
            } else {
                l2[1]
            }
        } else {
            '\u{2500}'
        };
        let line = Line {
            kind: LineKind::Divider(ch),
            indent_depth: st.depth,
            alignment: st.alignment,
            elements: Vec::new(),
        };
        proof {
            assert(line@.elements =~= Seq::<ElemV>::empty());
        }
        (Some(line), st)
    } else {
        build_scanned_line(&l2, 0, st, pre, LineKind::Normal, st.depth)
    }
}

/// The document lines a list of physical lines yields, and the state left
/// behind, folding the state through line by line.
pub open spec fn parse_lines(ls: Seq<Seq<char>>, st: ParseState) -> (Seq<LineV>, ParseState)
    decreases ls.len(),
{
    if ls.len() == 0 {
        (Seq::empty(), st)
    } else {
        let first = parse_line_spec(ls[0], st);
        let rest = parse_lines(ls.drop_first(), first.1);
        match first.0 {
            Some(lv) => (seq![lv] + rest.0, rest.1),
            None => rest,
        }
    }
}

/// The meaning of a whole input text: its physical lines parsed in order
/// from the initial state.
pub open spec fn parse_doc(s: Seq<char>) -> Seq<LineV> {
    parse_lines(split_lines(s), init_state()).0
}

/// The views of a sequence of lines.
pub open spec fn lines_view(s: Seq<Line>) -> Seq<LineV> {
    Seq::new(s.len(), |i: int| s[i]@)
}

/// Parses raw text into a document. Total: every input yields a document,
/// and the result is exactly what `parse_doc` describes.
pub fn parse(input: &str) -> (doc: Document)
    ensures
        doc@ == parse_doc(input@),
{
    let chars = str_chars(input);
    let lines = split_lines_exec(&chars);
    let ghost ls = lines.deep_view();
    let mut st = ParseState {
        literal_mode: false,
        depth: 0,
        fg: None,
        bg: None,
        bold: false,
        italic: false,
        underline: false,
        alignment: Alignment::Left,
    };
    proof {
        assert(st == init_state());
    }
    let mut out: Vec<Line> = Vec::new();
    let mut k: usize = 0;
    proof {
        assert(ls.skip(0) =~= ls);
        assert(lines_view(out@) =~= Seq::<LineV>::empty());
        assert(lines_view(out@) + parse_lines(ls, init_state()).0 =~= parse_lines(
            ls,
            init_state(),
        ).0);
    }
    while k < lines.len()
        invariant
            k <= lines@.len(),
            ls == lines.deep_view(),
            parse_lines(ls, init_state()).0 == lines_view(out@) + parse_lines(
                ls.skip(k as int),
                st,
            ).0,
            parse_lines(ls, init_state()).1 == parse_lines(ls.skip(k as int), st).1,
        decreases lines@.len() - k,
    {
        let ghost rest = ls.skip(k as int);
        let ghost st_old = st;
        proof {
            assert(lines@[k as int].deep_view() =~= lines@[k as int]@);
            assert(rest[0] == ls[k as int]);
            assert(rest.drop_first() =~= ls.skip(k + 1));
        }
        let (lineopt, st2) = parse_line_exec(&lines[k], st);
        st = st2;
        let ghost old_lv = lines_view(out@);
        match lineopt {
            Some(ln) => {
                out.push(ln);
                proof {
                    assert(lines_view(out@) =~= old_lv.push(ln@));
                }
            },
            None => {},
        }
        k = k + 1;
        proof {
            let first = parse_line_spec(rest[0], st_old);
            let tail = parse_lines(rest.drop_first(), first.1);
            assert(parse_lines(rest, st_old).0 == (match first.0 {
                Some(lv) => seq![lv] + tail.0,
                None => tail.0,
            }));
            match first.0 {
                Some(lv) => {
                    assert(old_lv + (seq![lv] + tail.0) =~= old_lv.push(lv) + tail.0);
                },
                None => {},
            }
            assert(lines_view(out@) + parse_lines(ls.skip(k as int), st).0 =~= old_lv
                + parse_lines(rest, st_old).0);
        }
    }
    proof {
        assert(ls.skip(lines@.len() as int) =~= Seq::<Seq<char>>::empty());
    }
    let doc = Document { lines: out };
    proof {
        assert(doc@ =~= lines_view(out@));
        assert(lines_view(out@) + parse_lines(Seq::empty(), st).0 =~= lines_view(out@));
    }
    doc
}

// ---------------------------------------------------------------------------
// Laws
// ---------------------------------------------------------------------------

/// Escape law: outside literal mode, a line holding a backslash followed by
/// any one character parses to a normal line whose single element is that
/// character as literal text, and the parser state is left untouched.
pub proof fn lemma_escape_law(c: char, st: ParseState)
    requires
        !st.literal_mode,
    ensures
        parse_line_spec(seq!['\\', c], st).0 == Some(
            LineV {
                kind: LineKind::Normal,
                indent_depth: st.depth,
                alignment: st.alignment,
                elements: seq![ElemV::Text(TextV { text: seq![c], style: current_style(st) })],
            },
        ),
        parse_line_spec(seq!['\\', c], st).1 == st,
{
    let l = seq!['\\', c];
    assert(l.len() == 2 && l[0] == '\\' && l[1] == c);
    let l2 = l.drop_first();
    assert(l2 =~= seq![c]);
    let e0: Seq<ElemV> = Seq::empty();
    let b0: Seq<char> = Seq::empty();
    let s0 = scan(l2, 0, st, b0, true, None::<Alignment>, e0);
    if c == '\\' {
        assert(s0 == scan(l2, 1, st, b0.push('\\'), false, None::<Alignment>, e0));
    } else if c == '`' {
        assert(s0 == scan(l2, 1, st, b0.push('`'), false, None::<Alignment>, e0));
    } else {
        assert(s0 == scan(l2, 1, st, b0.push(c), false, None::<Alignment>, e0));
    }
    assert(b0.push(c).len() == 1);
    assert(s0.0 =~= seq![ElemV::Text(TextV { text: b0.push(c), style: current_style(st) })]);
    assert(b0.push(c) =~= seq![c]);
    assert(s0.1 == st);
    assert(s0.2 == Some(st.alignment));
    assert(parse_line_spec(l, st) == scanned_line(l2, 0, st, true, LineKind::Normal, st.depth));
}

/// The literal-mode toggle line.
pub open spec fn toggle_line() -> Seq<char> {
    seq!['`', '=']
}

/// Toggling literal mode on and then off with nothing between changes no
/// state, so the surrounding lines parse exactly as if the two toggle lines
/// were not there.
pub proof fn lemma_literal_toggle_idempotent(
    ls1: Seq<Seq<char>>,
    ls2: Seq<Seq<char>>,
    st: ParseState,
)
    ensures
        parse_lines(ls1 + seq![toggle_line(), toggle_line()] + ls2, st) == parse_lines(
            ls1 + ls2,
            st,
        ),
    decreases ls1.len(),
{
    let t = toggle_line();
    if ls1.len() == 0 {
        let whole = ls1 + seq![t, t] + ls2;
        assert(whole[0] == t);
        let st1 = parse_line_spec(t, st).1;
        assert(parse_line_spec(t, st).0 is None);
        assert(st1 == ParseState { literal_mode: !st.literal_mode, ..st });
        let rest1 = whole.drop_first();
        assert(rest1[0] == t);
        assert(parse_line_spec(t, st1).0 is None);
        let st2 = parse_line_spec(t, st1).1;
        assert(st2 == st);
        assert(rest1.drop_first() =~= ls2);
        assert(parse_lines(whole, st) == parse_lines(rest1, st1));
        assert(parse_lines(rest1, st1) == parse_lines(rest1.drop_first(), st2));
        assert(parse_lines(whole, st) == parse_lines(ls2, st));
        assert(ls1 + ls2 =~= ls2);
    } else {
        let whole = ls1 + seq![t, t] + ls2;
        let plain = ls1 + ls2;
        assert(whole[0] == ls1[0]);
        assert(plain[0] == ls1[0]);
        let first = parse_line_spec(ls1[0], st);
        assert(whole.drop_first() =~= ls1.drop_first() + seq![t, t] + ls2);
        assert(plain.drop_first() =~= ls1.drop_first() + ls2);
        lemma_literal_toggle_idempotent(ls1.drop_first(), ls2, first.1);
    }
}

} // verus!

