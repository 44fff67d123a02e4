//! The document model: the parsed representation of a page in the markup
//! format. Pure data; construction helpers live in `builder`.
//!
//! Each type with text content has a mathematical view (`LineV`, `ElemV`, ...)
//! over `Seq<char>`, which the parser, serializer and layout contracts speak of.

use vstd::prelude::*;

verus! {

/// A parsed document: an ordered sequence of lines.
#[derive(Debug, Clone, PartialEq)]
pub struct Document {
    pub lines: Vec<Line>,
}

/// One document line: its kind, the indent depth and alignment in force when
/// it was parsed, and its elements in rendering order.
#[derive(Debug, Clone, PartialEq)]
pub struct Line {
    pub kind: LineKind,
    pub indent_depth: u8,
    pub alignment: Alignment,
    pub elements: Vec<Element>,
}

#[derive(Debug, Clone, Copy, PartialEq, Eq)]
pub enum LineKind {
    Normal,
    Heading(u8),
    Divider(char),
    Comment,
}

#[derive(Debug, Clone, Copy, PartialEq, Eq)]
pub enum Alignment {
    Left,
    Center,
    Right,
}

/// An inline element of a line.
#[derive(Debug, Clone, PartialEq)]
pub enum Element {
    Text(StyledText),
    Link(LinkElement),
    Field(Field),
    Partial(Partial),
}

/// A run of text with the style that was in effect when it was scanned.
#[derive(Debug, Clone, PartialEq)]
pub struct StyledText {
    pub text: String,
    pub style: Style,
}

/// A value-type style: effective colors and flags, not a stack.
#[derive(Debug, Clone, Copy, PartialEq, Eq)]
pub struct Style {
    pub fg: Option<Color>,
    pub bg: Option<Color>,
    pub bold: bool,
    pub italic: bool,
    pub underline: bool,
}

/// A 24-bit RGB color.
#[derive(Debug, Clone, Copy, PartialEq, Eq)]
pub struct Color {
    pub r: u8,
    pub g: u8,
    pub b: u8,
}

/// A link element: label, target url, form-field specifiers, and the style in
/// effect where the link opened.
#[derive(Debug, Clone, PartialEq)]
pub struct LinkElement {
    pub label: String,
    pub url: String,
    pub fields: Vec<String>,
    pub style: Style,
}

/// A form field element.
#[derive(Debug, Clone, PartialEq)]
pub struct Field {
    pub name: String,
    pub default: String,
    pub width: Option<u16>,
    pub masked: bool,
    pub kind: FieldKind,
}

#[derive(Debug, Clone, PartialEq, Eq)]
pub enum FieldKind {
    Text,
    Checkbox { checked: bool },
    Radio { value: String, checked: bool },
}

/// A transclusion reference; never resolved by this crate, rendered as an
/// opaque placeholder.
#[derive(Debug, Clone, PartialEq)]
pub struct Partial {
    pub url: String,
    pub refresh: Option<u32>,
    pub fields: Vec<String>,
}

/// The style with no colors and no flags.
pub open spec fn default_style() -> Style {
    Style { fg: None, bg: None, bold: false, italic: false, underline: false }
}

impl Default for Style {
    fn default() -> (s: Style)
        ensures
            s == default_style(),
    {
        Style { fg: None, bg: None, bold: false, italic: false, underline: false }
    }
}

impl Default for Alignment {
    fn default() -> (a: Alignment)
        ensures
            a == Alignment::Left,
    {
        Alignment::Left
    }
}

// ---------------------------------------------------------------------------
// Mathematical views
// ---------------------------------------------------------------------------

/// View of a `StyledText`.
pub struct TextV {
    pub text: Seq<char>,
    pub style: Style,
}

/// View of a `LinkElement`.
pub struct LinkV {
    pub label: Seq<char>,
    pub url: Seq<char>,
    pub fields: Seq<Seq<char>>,
    pub style: Style,
}

/// View of a `FieldKind`.
pub enum FieldKindV {
    Text,
    Checkbox { checked: bool },
    Radio { value: Seq<char>, checked: bool },
}

/// View of a `Field`.
pub struct FieldV {
    pub name: Seq<char>,
    pub default: Seq<char>,
    pub width: Option<u16>,
    pub masked: bool,
    pub kind: FieldKindV,
}

/// View of a `Partial`.
pub struct PartialV {
    pub url: Seq<char>,
    pub refresh: Option<u32>,
    pub fields: Seq<Seq<char>>,
}

/// View of an `Element`.
pub enum ElemV {
    Text(TextV),
    Link(LinkV),
    Field(FieldV),
    Partial(PartialV),
}

/// View of a `Line`.
pub struct LineV {
    pub kind: LineKind,
    pub indent_depth: u8,
    pub alignment: Alignment,
    pub elements: Seq<ElemV>,
}

impl View for StyledText {
    type V = TextV;

    open spec fn view(&self) -> TextV {
        TextV { text: self.text@, style: self.style }
    }
}

impl View for LinkElement {
    type V = LinkV;

    open spec fn view(&self) -> LinkV {
        LinkV {
            label: self.label@,
            url: self.url@,
            fields: self.fields.deep_view(),
            style: self.style,
        }
    }
}

impl View for FieldKind {
    type V = FieldKindV;

    open spec fn view(&self) -> FieldKindV {
        match self {
            FieldKind::Text => FieldKindV::Text,
            FieldKind::Checkbox { checked } => FieldKindV::Checkbox { checked: *checked },
            FieldKind::Radio { value, checked } => (FieldKindV::Radio {
                value: value@,
                checked: *checked,
            }),
        }
    }
}

impl View for Field {
    type V = FieldV;

    open spec fn view(&self) -> FieldV {
        FieldV {
            name: self.name@,
            default: self.default@,
            width: self.width,
            masked: self.masked,
            kind: self.kind@,
        }
    }
}

impl View for Partial {
    type V = PartialV;

    open spec fn view(&self) -> PartialV {
        PartialV { url: self.url@, refresh: self.refresh, fields: self.fields.deep_view() }
    }
}

impl View for Element {
    type V = ElemV;

    open spec fn view(&self) -> ElemV {
        match self {
            Element::Text(t) => ElemV::Text(t@),
            Element::Link(l) => ElemV::Link(l@),
            Element::Field(f) => ElemV::Field(f@),
            Element::Partial(p) => ElemV::Partial(p@),
        }
    }
}

impl View for Line {
    type V = LineV;

    open spec fn view(&self) -> LineV {
        LineV {
            kind: self.kind,
            indent_depth: self.indent_depth,
            alignment: self.alignment,
            elements: Seq::new(self.elements@.len(), |i: int| self.elements@[i]@),
        }
    }
}

impl View for Document {
    type V = Seq<LineV>;

    open spec fn view(&self) -> Seq<LineV> {
        Seq::new(self.lines@.len(), |i: int| self.lines@[i]@)
    }
}

} // verus!
