//! Construction helpers on the document model: a fluent way to build
//! documents directly, bypassing the parser.

use vstd::prelude::*;

use crate::ast::{
    Alignment, Color, Document, Element, ElemV, Field, FieldKind, FieldKindV, FieldV, Line,
    LineKind, LineV, LinkElement, LinkV, Partial, PartialV, Style, StyledText, TextV,
    default_style,
};
use crate::parser::elems_view;
use crate::strutil::str_chars;

verus! {

/// A string's characters as an owned `String`; used by the builders below.
fn owned(s: &str) -> (r: String)
    ensures
        r@ == s@,
{
    let v = str_chars(s);
    crate::strutil::string_from_chars(&v)
}

impl Document {
    /// An empty document.
    pub fn new() -> (d: Document)
        ensures
            d@ == Seq::<LineV>::empty(),
    {
        let d = Document { lines: Vec::new() };
        proof {
            assert(d@ =~= Seq::<LineV>::empty());
        }
        d
    }

    /// Appends a line.
    pub fn push(&mut self, line: Line)
        ensures
            final(self)@ == old(self)@.push(line@),
    {
        self.lines.push(line);
        proof {
            assert(self@ =~= old(self)@.push(line@));
        }
    }
}

impl Default for Document {
    fn default() -> (d: Document)
        ensures
            d@ == Seq::<LineV>::empty(),
    {
        Document::new()
    }
}

impl Line {
    /// A line of the given kind with no indent, left alignment and no
    /// elements.
    pub fn new(kind: LineKind) -> (r: Line)
        ensures
            r@ == (LineV {
                kind,
                indent_depth: 0,
                alignment: Alignment::Left,
                elements: Seq::empty(),
            }),
    {
        let r = Line { kind, indent_depth: 0, alignment: Alignment::Left, elements: Vec::new() };
        proof {
            assert(r@.elements =~= Seq::<ElemV>::empty());
        }
        r
    }

    /// A normal line.
    pub fn normal() -> (r: Line)
        ensures
            r@ == (LineV {
                kind: LineKind::Normal,
                indent_depth: 0,
                alignment: Alignment::Left,
                elements: Seq::empty(),
            }),
    {
        Line::new(LineKind::Normal)
    }

    /// A heading line; the level is clamped to 1–3.
    pub fn heading(level: u8) -> (r: Line)
        ensures
            r@ == (LineV {
                kind: LineKind::Heading(
                    if level < 1 {
                        1
                    } else if level > 3 {
                        3
                    } else {
                        level
                    },
                ),
                indent_depth: 0,
                alignment: Alignment::Left,
                elements: Seq::empty(),
            }),
    {
        let lv = if level < 1 {
            1
        } else if level > 3 {
            3
        } else {
            level
        };
        Line::new(LineKind::Heading(lv))
    }

    /// A divider line with the default rule glyph.
    pub fn divider() -> (r: Line)
        ensures
            r@ == (LineV {
                kind: LineKind::Divider('\u{2500}'),
                indent_depth: 0,
                alignment: Alignment::Left,
                elements: Seq::empty(),
            }),
    {
        Line::new(LineKind::Divider('\u{2500}'))
    }

    /// A divider line with the given glyph.
    pub fn divider_char(ch: char) -> (r: Line)
        ensures
            r@ == (LineV {
                kind: LineKind::Divider(ch),
                indent_depth: 0,
                alignment: Alignment::Left,
                elements: Seq::empty(),
            }),
    {
        Line::new(LineKind::Divider(ch))
    }

    /// A comment line.
    pub fn comment() -> (r: Line)
        ensures
            r@ == (LineV {
                kind: LineKind::Comment,
                indent_depth: 0,
                alignment: Alignment::Left,
                elements: Seq::empty(),
            }),
    {
        Line::new(LineKind::Comment)
    }

    /// This line with the given indent depth, clamped to at most 3.
    pub fn indent(self, depth: u8) -> (r: Line)
        ensures
            r@ == (LineV {
                indent_depth: if depth > 3 {
                    3
                } else {
                    depth
                },
                ..self@
            }),
    {
        let d = if depth > 3 {
            3
        } else {
            depth
        };
        Line { indent_depth: d, ..self }
    }

    /// This line with the given alignment.
    pub fn align(self, alignment: Alignment) -> (r: Line)
        ensures
            r@ == (LineV { alignment, ..self@ }),
    {
        Line { alignment, ..self }
    }

    /// This line centered.
    pub fn center(self) -> (r: Line)
        ensures
            r@ == (LineV { alignment: Alignment::Center, ..self@ }),
    {
        self.align(Alignment::Center)
    }

    /// This line right-aligned.
    pub fn right(self) -> (r: Line)
        ensures
            r@ == (LineV { alignment: Alignment::Right, ..self@ }),
    {
        self.align(Alignment::Right)
    }

    /// This line with an element appended.
    pub fn element(self, element: Element) -> (r: Line)
        ensures
            r@ == (LineV { elements: self@.elements.push(element@), ..self@ }),
    {
        let Line { kind, indent_depth, alignment, mut elements } = self;
        let ghost ev = elems_view(elements@);
        elements.push(element);
        let r = Line { kind, indent_depth, alignment, elements };
        proof {
            assert(r@.elements =~= ev.push(element@));
        }
        r
    }

    /// This line with an unstyled text run appended.
    pub fn text(self, s: &str) -> (r: Line)
        ensures
            r@ == (LineV {
                elements: self@.elements.push(
                    ElemV::Text(TextV { text: s@, style: default_style() }),
                ),
                ..self@
            }),
    {
        let st = StyledText { text: owned(s), style: Style::default() };
        self.element(Element::Text(st))
    }

    /// This line with a styled text run appended.
    pub fn styled(self, s: &str, style: Style) -> (r: Line)
        ensures
            r@ == (LineV {
                elements: self@.elements.push(ElemV::Text(TextV { text: s@, style })),
                ..self@
            }),
    {
        let st = StyledText { text: owned(s), style };
        self.element(Element::Text(st))
    }

    /// This line with a bold text run appended.
    pub fn bold(self, s: &str) -> (r: Line)
        ensures
            r@ == (LineV {
                elements: self@.elements.push(
                    ElemV::Text(TextV { text: s@, style: (Style { bold: true, ..default_style() }) }),
                ),
                ..self@
            }),
    {
        self.styled(s, Style { bold: true, ..Style::default() })
    }

    /// This line with an italic text run appended.
    pub fn italic(self, s: &str) -> (r: Line)
        ensures
            r@ == (LineV {
                elements: self@.elements.push(
                    ElemV::Text(
                        TextV { text: s@, style: (Style { italic: true, ..default_style() }) },
                    ),
                ),
                ..self@
            }),
    {
        self.styled(s, Style { italic: true, ..Style::default() })
    }

    /// This line with an underlined text run appended.
    pub fn underline(self, s: &str) -> (r: Line)
        ensures
            r@ == (LineV {
                elements: self@.elements.push(
                    ElemV::Text(
                        TextV { text: s@, style: (Style { underline: true, ..default_style() }) },
                    ),
                ),
                ..self@
            }),
    {
        self.styled(s, Style { underline: true, ..Style::default() })
    }

    /// This line with a link appended.
    pub fn link(self, link: LinkElement) -> (r: Line)
        ensures
            r@ == (LineV { elements: self@.elements.push(ElemV::Link(link@)), ..self@ }),
    {
        self.element(Element::Link(link))
    }

    /// This line with a field appended.
    pub fn field(self, field: Field) -> (r: Line)
        ensures
            r@ == (LineV { elements: self@.elements.push(ElemV::Field(field@)), ..self@ }),
    {
        self.element(Element::Field(field))
    }

    /// This line with a transclusion reference appended.
    pub fn partial(self, partial: Partial) -> (r: Line)
        ensures
            r@ == (LineV { elements: self@.elements.push(ElemV::Partial(partial@)), ..self@ }),
    {
        self.element(Element::Partial(partial))
    }
}

impl Style {
    /// The default style.
    pub fn new() -> (r: Style)
        ensures
            r == default_style(),
    {
        Style::default()
    }

    /// This style with bold set.
    pub fn bold(self) -> (r: Style)
        ensures
            r == (Style { bold: true, ..self }),
    {
        Style { bold: true, ..self }
    }

    /// This style with italic set.
    pub fn italic(self) -> (r: Style)
        ensures
            r == (Style { italic: true, ..self }),
    {
        Style { italic: true, ..self }
    }

    /// This style with underline set.
    pub fn underline(self) -> (r: Style)
        ensures
            r == (Style { underline: true, ..self }),
    {
        Style { underline: true, ..self }
    }

    /// This style with the given foreground.
    pub fn fg(self, color: Color) -> (r: Style)
        ensures
            r == (Style { fg: Some(color), ..self }),
    {
        Style { fg: Some(color), ..self }
    }

    /// This style with the given background.
    pub fn bg(self, color: Color) -> (r: Style)
        ensures
            r == (Style { bg: Some(color), ..self }),
    {
        Style { bg: Some(color), ..self }
    }
}

/// The gray value a 0–99 level scales to.
pub open spec fn gray_level(pct: u8) -> u8 {
    ((((if pct > 99 {
        99
    } else {
        pct
    }) as nat) * 255) / 99) as u8
}

impl Color {
    /// A color from components.
    pub fn new(r: u8, g: u8, b: u8) -> (c: Color)
        ensures
            c == (Color { r, g, b }),
    {
        Color { r, g, b }
    }

    /// A gray from a 0–99 level, scaled to 0–255.
    pub fn gray(pct: u8) -> (c: Color)
        ensures
            c == (Color { r: gray_level(pct), g: gray_level(pct), b: gray_level(pct) }),
    {
        let p: u32 = if pct > 99 {
            99
        } else {
            pct as u32
        };
        let v = ((p * 255) / 99) as u8;
        Color { r: v, g: v, b: v }
    }

    /// A color from a packed `0xRRGGBB` value.
    pub fn hex(hex: u32) -> (c: Color)
        ensures
            c.r == ((hex >> 16) & 0xFF) as u8,
            c.g == ((hex >> 8) & 0xFF) as u8,
            c.b == (hex & 0xFF) as u8,
    {
        Color {
            r: ((hex >> 16) & 0xFF) as u8,
            g: ((hex >> 8) & 0xFF) as u8,
            b: (hex & 0xFF) as u8,
        }
    }
}

impl LinkElement {
    /// A link to `url`, labelled with the url itself.
    pub fn new(url: &str) -> (r: LinkElement)
        ensures
            r@ == (LinkV {
                label: url@,
                url: url@,
                fields: Seq::empty(),
                style: default_style(),
            }),
    {
        let r = LinkElement {
            label: owned(url),
            url: owned(url),
            fields: Vec::new(),
            style: Style::default(),
        };
        proof {
            assert(r@.fields =~~= Seq::<Seq<char>>::empty());
        }
        r
    }

    /// This link with the given label.
    pub fn label(self, label: &str) -> (r: LinkElement)
        ensures
            r@ == (LinkV { label: label@, ..self@ }),
    {
        LinkElement { label: owned(label), ..self }
    }

    /// This link with a field specifier appended.
    pub fn field(self, name: &str) -> (r: LinkElement)
        ensures
            r@ == (LinkV { fields: self@.fields.push(name@), ..self@ }),
    {
        let LinkElement { label, url, mut fields, style } = self;
        let ghost fv = fields.deep_view();
        fields.push(owned(name));
        let r = LinkElement { label, url, fields, style };
        proof {
            assert(r@.fields =~~= fv.push(name@));
        }
        r
    }

    /// This link with the given style.
    pub fn style(self, style: Style) -> (r: LinkElement)
        ensures
            r@ == (LinkV { style, ..self@ }),
    {
        LinkElement { style, ..self }
    }
}

impl Field {
    /// A plain text field.
    pub fn text(name: &str) -> (r: Field)
        ensures
            r@ == (FieldV {
                name: name@,
                default: Seq::empty(),
                width: None,
                masked: false,
                kind: FieldKindV::Text,
            }),
    {
        Field {
            name: owned(name),
            default: String::new(),
            width: None,
            masked: false,
            kind: FieldKind::Text,
        }
    }

    /// A masked text field.
    pub fn password(name: &str) -> (r: Field)
        ensures
            r@ == (FieldV {
                name: name@,
                default: Seq::empty(),
                width: None,
                masked: true,
                kind: FieldKindV::Text,
            }),
    {
        Field {
            name: owned(name),
            default: String::new(),
            width: None,
            masked: true,
            kind: FieldKind::Text,
        }
    }

    /// An unchecked checkbox; `value` becomes its display text.
    pub fn checkbox(name: &str, value: &str) -> (r: Field)
        ensures
            r@ == (FieldV {
                name: name@,
                default: value@,
                width: None,
                masked: false,
                kind: FieldKindV::Checkbox { checked: false },
            }),
    {
        Field {
            name: owned(name),
            default: owned(value),
            width: None,
            masked: false,
            kind: FieldKind::Checkbox { checked: false },
        }
    }

    /// An unchecked radio button carrying `value` for its group.
    pub fn radio(name: &str, value: &str) -> (r: Field)
        ensures
            r@ == (FieldV {
                name: name@,
                default: Seq::empty(),
                width: None,
                masked: false,
                kind: FieldKindV::Radio { value: value@, checked: false },
            }),
    {
        Field {
            name: owned(name),
            default: String::new(),
            width: None,
            masked: false,
            kind: FieldKind::Radio { value: owned(value), checked: false },
        }
    }

    /// This field with the given default value.
    pub fn default(self, default: &str) -> (r: Field)
        ensures
            r@ == (FieldV { default: default@, ..self@ }),
    {
        Field { default: owned(default), ..self }
    }

    /// This field with the given display width.
    pub fn width(self, width: u16) -> (r: Field)
        ensures
            r@ == (FieldV { width: Some(width), ..self@ }),
    {
        Field { width: Some(width), ..self }
    }

    /// This field checked, if it is a checkbox or radio.
    pub fn checked(self) -> (r: Field)
        ensures
            r@ == (FieldV {
                kind: match self@.kind {
                    FieldKindV::Checkbox { .. } => FieldKindV::Checkbox { checked: true },
                    FieldKindV::Radio { value, .. } => FieldKindV::Radio { value, checked: true },
                    FieldKindV::Text => FieldKindV::Text,
                },
                ..self@
            }),
    {
        let Field { name, default, width, masked, kind } = self;
        let kind2 = match kind {
            FieldKind::Checkbox { .. } => FieldKind::Checkbox { checked: true },
            FieldKind::Radio { value, .. } => FieldKind::Radio { value, checked: true },
            FieldKind::Text => FieldKind::Text,
        };
        Field { name, default, width, masked, kind: kind2 }
    }
}

impl Partial {
    /// A transclusion reference to `url`.
    pub fn new(url: &str) -> (r: Partial)
        ensures
            r@ == (PartialV { url: url@, refresh: None, fields: Seq::empty() }),
    {
        let r = Partial { url: owned(url), refresh: None, fields: Vec::new() };
        proof {
            assert(r@.fields =~~= Seq::<Seq<char>>::empty());
        }
        r
    }

    /// This reference with a refresh interval in seconds.
    pub fn refresh(self, seconds: u32) -> (r: Partial)
        ensures
            r@ == (PartialV { refresh: Some(seconds), ..self@ }),
    {
        Partial { refresh: Some(seconds), ..self }
    }

    /// This reference with a forwarded field name appended.
    pub fn field(self, name: &str) -> (r: Partial)
        ensures
            r@ == (PartialV { fields: self@.fields.push(name@), ..self@ }),
    {
        let Partial { url, refresh, mut fields } = self;
        let ghost fv = fields.deep_view();
        fields.push(owned(name));
        let r = Partial { url, refresh, fields };
        proof {
            assert(r@.fields =~~= fv.push(name@));
        }
        r
    }
}

} // verus!
