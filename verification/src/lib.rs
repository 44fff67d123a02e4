//! A line-oriented hypertext markup format and a small browsing engine for it:
//! a total parser from raw text to a structured document, a serializer that is
//! its inverse, a wrapping layout engine that produces positioned styled rows
//! together with a hit-map of interactable regions, and a browser state
//! machine owning navigation history, form state and selection.

mod ast;
mod browser;
mod builder;
mod digits;
mod layout;
mod parser;
pub mod render;
mod serialize;
mod strmap;
mod strutil;
mod types;
mod width;

// The document model and its views.
pub use ast::{
    default_style, Alignment, Color, Document, ElemV, Element, Field, FieldKind, FieldKindV,
    FieldV, Line, LineKind, LineV, LinkElement, LinkV, Partial, PartialV, Style, StyledText, TextV,
};

// The parser, its specification, and its laws.
pub use parser::{
    choice_field_spec, color_of, current_style, do_cmd, elems_view, field_spec, flush_acc,
    flush_fta, has_field_mark, init_state, lemma_escape_law, lemma_literal_toggle_idempotent,
    lines_view, link_of, opt_elem_view, opt_line_view, parse, parse_doc, parse_line_spec,
    parse_lines, partial_spec, reset_style, scan, scanned_line, skip_gt_from, split_lines,
    strip_cr, text_field_spec, toggle_line, ParseState,
};

// The serializer, its specification, and the round-trip results.
pub use serialize::{
    align_marker, bg_delta, color_code, dec_digit_char, dec_digits, esc_char, esc_text, fg_delta,
    flag_delta, gt_reps, hex_nibble_char, init_ser_state, join_pipe, lemma_color_code_roundtrip,
    lemma_dec_digits_roundtrip, lemma_plain_doc_roundtrip, plain_line_text, plain_text_line,
    seq_contains, ser_doc, ser_elem, ser_elems, ser_field, ser_line, ser_lines_from, ser_link,
    ser_partial, ser_style_delta, SerState,
};

// The layout engine and its specification.
pub use layout::{
    checkbox_checked, collect_text, conv_style, default_field_width, divider_row, elem_wspan,
    field_span_style, field_value, heading_row, heading_span_style, indent_of, init_row,
    line_wspans, pad_to_width, plain_span_style, radio_checked, render_doc_spec, render_document,
    render_document_with, render_line_spec, render_lines_spec, rep_char, row_view, rows_view,
    sat_inc, spaces, take_width, text_field_display, wrap, RenderOutput, RenderedLine,
    RenderedSpan, RenderedText, SpanStyle, SpanV, WSpanV,
};

// The browser state machine and its specification.
pub use browser::{
    checks_data, collect_spec, fields_data, has_wildcard, hit_at, is_requested, kvs_has,
    literal_data, radios_data, seed_forms, visible_scroll, Browser, BrowserV, HistV, LinkFollowV,
    Renderer,
};

// Interaction data: form state, the hit-map, and followed links.
pub use types::{
    hitboxes_view, FormState, FormStateV, Hitbox, HitboxV, InputResult, Interactable,
    InteractableV, Interaction, Link, TextField,
};

// Verified building blocks: string helpers, digit reading, display widths,
// and the name-to-value map behind form state.
pub use builder::gray_level;
pub use digits::{
    all_digits, digit_val, digits_val, hex_digit, hex_digit_val, is_digit, parse_uint,
    parse_uint_spec,
};
pub use strmap::{lemma_map_of_contains, lemma_map_of_get, map_of, StrMap};
pub use strutil::{
    find_char, find_char2, find_from, find_from2, lemma_find_from, lemma_find_from2,
    lemma_find_from_offset, split_chars, split_on, str_chars, string_from_chars, subvec,
};
pub use width::{char_width, disp_width, display_width, seq_width};
