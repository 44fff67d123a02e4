//! End-to-end scenarios: alignment freezing and inheritance, exact color
//! values, field rendering against live form state, and navigation history
//! with scroll restoration.

use micronaut::render::{render, RenderConfig};
use micronaut::{
    parse, Alignment, Browser, Color, Document, Element, FormState, RenderOutput, Renderer,
};

#[test]
fn alignment_frozen_at_first_element() {
    let doc = parse("`ccentered``\nnext text");
    assert_eq!(doc.lines[0].alignment, Alignment::Center);
    assert_eq!(doc.lines[1].alignment, Alignment::Left);
}

#[test]
fn alignment_inherited_without_marker() {
    let doc = parse("`ccentered\nfollows");
    assert_eq!(doc.lines[0].alignment, Alignment::Center);
    assert_eq!(doc.lines[1].alignment, Alignment::Center);
}

#[test]
fn hex_color_decodes_to_full_red() {
    let doc = parse("`Ff00x`f");
    if let Element::Text(t) = &doc.lines[0].elements[0] {
        assert_eq!(t.style.fg, Some(Color { r: 255, g: 0, b: 0 }));
    } else {
        panic!("Expected Text");
    }
}

#[test]
fn gray_color_decodes_to_near_mid() {
    let doc = parse("`Fg50x`f");
    if let Element::Text(t) = &doc.lines[0].elements[0] {
        let c = t.style.fg.unwrap();
        assert_eq!(c.r, c.g);
        assert_eq!(c.g, c.b);
        assert_eq!(c.r, 128);
    } else {
        panic!("Expected Text");
    }
}

#[test]
fn masked_field_renders_stars_padded() {
    let doc = parse("`<!8|pw`>");
    let mut fs = FormState::new();
    fs.fields.insert("pw", "secret".to_string());
    let config = RenderConfig {
        width: 40,
        default_field_width: 24,
        form_state: Some(fs),
    };
    let text = render(&doc, &config);
    assert_eq!(text.lines.len(), 1);
    assert_eq!(text.lines[0].spans[0].text, "******  ");
}

#[test]
fn text_field_value_truncated_to_width() {
    let doc = parse("`<4|name`>");
    let mut fs = FormState::new();
    fs.fields.insert("name", "abcdefgh".to_string());
    let config = RenderConfig {
        width: 40,
        default_field_width: 24,
        form_state: Some(fs),
    };
    let text = render(&doc, &config);
    assert_eq!(text.lines[0].spans[0].text, "abcd");
}

#[test]
fn checkbox_renders_state_from_form() {
    let doc = parse("`<?|agree|yes`ok>");
    let mut fs = FormState::new();
    fs.checkboxes.insert("agree", true);
    let config = RenderConfig {
        width: 40,
        default_field_width: 24,
        form_state: Some(fs),
    };
    let text = render(&doc, &config);
    assert_eq!(text.lines[0].spans[0].text, "[X]");

    let config2 = RenderConfig {
        width: 40,
        default_field_width: 24,
        form_state: None,
    };
    let text2 = render(&doc, &config2);
    assert_eq!(text2.lines[0].spans[0].text, "[ ]");
}

#[test]
fn radio_renders_group_selection() {
    let doc = parse("`<^|c|red`Red> `<^|c|blue|*`Blue>");
    let mut fs = FormState::new();
    fs.radios.insert("c", "red".to_string());
    let config = RenderConfig {
        width: 40,
        default_field_width: 24,
        form_state: Some(fs),
    };
    let text = render(&doc, &config);
    assert_eq!(text.lines[0].spans[0].text, "(X)");
    assert_eq!(text.lines[0].spans[2].text, "( )");
}

#[test]
fn divider_fills_width_with_glyph() {
    let doc = parse("-=");
    let config = RenderConfig {
        width: 6,
        default_field_width: 24,
        form_state: None,
    };
    let text = render(&doc, &config);
    assert_eq!(text.lines[0].spans[0].text, "======");
}

#[test]
fn heading_padded_by_alignment() {
    let doc = parse("`c\n>ab");
    let config = RenderConfig {
        width: 8,
        default_field_width: 24,
        form_state: None,
    };
    let text = render(&doc, &config);
    assert_eq!(text.lines.len(), 2);
    assert_eq!(text.lines[1].spans[0].text, "   ab   ");
}

struct CountingRenderer;

impl Renderer for CountingRenderer {
    type Output = usize;

    fn render(
        &self,
        doc: &Document,
        _width: u16,
        _form_state: &FormState,
        _selected: Option<usize>,
    ) -> RenderOutput<usize> {
        RenderOutput {
            content: doc.lines.len(),
            hitboxes: Vec::new(),
            height: doc.lines.len() as u16,
        }
    }
}

#[test]
fn navigation_url_and_scroll_sequence() {
    let mut b = Browser::new(CountingRenderer);
    b.resize(80, 2);
    b.set_content("/one", "a\nb\nc\nd\ne");
    b.scroll_to(1);
    b.set_content("/two", "f\ng\nh\ni\nj");
    b.scroll_to(2);
    b.set_content("/three", "k\nl\nm\nn\no");
    b.scroll_to(3);

    assert_eq!(b.url(), Some("/three"));
    assert!(b.back());
    assert_eq!(b.url(), Some("/two"));
    assert_eq!(b.scroll(), 2);
    assert!(b.back());
    assert_eq!(b.url(), Some("/one"));
    assert_eq!(b.scroll(), 1);
    assert!(b.forward());
    assert_eq!(b.url(), Some("/two"));
    assert_eq!(b.scroll(), 2);
    assert!(!b.back() || b.url() == Some("/one"));
}

#[test]
fn literal_toggle_leaves_surroundings_unchanged() {
    let with_toggles = parse("before\n`=\n`=\nafter");
    let without = parse("before\nafter");
    assert_eq!(with_toggles, without);
}

#[test]
fn zero_width_viewport_yields_single_empty_row() {
    let doc = parse("hello");
    let config = RenderConfig {
        width: 0,
        default_field_width: 24,
        form_state: None,
    };
    let text = render(&doc, &config);
    assert_eq!(text.lines.len(), 1);
    assert_eq!(text.lines[0].spans[0].text, "");
}
