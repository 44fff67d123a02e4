//! The standalone render front door: row counts and the simplified hit-map.

use micronaut::parse;
use micronaut::render::{render, render_with_hitboxes, HitboxTarget, RenderConfig};

#[test]
fn test_render_plain_text() {
    let doc = parse("Hello world");
    let config = RenderConfig::default();
    let text = render(&doc, &config);
    assert_eq!(text.lines.len(), 1);
}

#[test]
fn test_render_heading() {
    let doc = parse(">Heading 1");
    let config = RenderConfig::default();
    let text = render(&doc, &config);
    assert_eq!(text.lines.len(), 1);
}

#[test]
fn test_render_divider() {
    let doc = parse("-");
    let config = RenderConfig {
        width: 10,
        ..Default::default()
    };
    let text = render(&doc, &config);
    assert_eq!(text.lines.len(), 1);
}

#[test]
fn test_render_styled_text() {
    let doc = parse("`!bold`* and `_underline");
    let config = RenderConfig::default();
    let text = render(&doc, &config);
    assert_eq!(text.lines.len(), 1);
}

#[test]
fn test_render_comment_excluded() {
    let doc = parse("# this is a comment\nvisible");
    let config = RenderConfig::default();
    let text = render(&doc, &config);
    assert_eq!(text.lines.len(), 1);
}

#[test]
fn test_render_link() {
    let doc = parse("`[Click here`http://example.com]");
    let config = RenderConfig::default();
    let text = render(&doc, &config);
    assert_eq!(text.lines.len(), 1);
}

#[test]
fn test_render_field() {
    let doc = parse("`<name`Enter name>");
    let config = RenderConfig::default();
    let text = render(&doc, &config);
    assert_eq!(text.lines.len(), 1);
}

#[test]
fn test_render_checkbox() {
    let doc = parse("`<!agree`I agree>");
    let config = RenderConfig::default();
    let text = render(&doc, &config);
    assert_eq!(text.lines.len(), 1);
}

#[test]
fn test_render_indented() {
    let doc = parse(">\n>>\ntext");
    let config = RenderConfig::default();
    let text = render(&doc, &config);
    assert!(text.lines.len() >= 1);
}

#[test]
fn test_hitboxes_link_with_fields() {
    let doc = parse("`[John 3:17`:/page/bible.mu`single_verse=true|book=John]");
    let config = RenderConfig::default();
    let output = render_with_hitboxes(&doc, &config);
    assert_eq!(output.hitboxes.len(), 1);
    if let HitboxTarget::Link { url } = &output.hitboxes[0].target {
        assert_eq!(url, ":/page/bible.mu");
    } else {
        panic!("Expected Link hitbox");
    }
}
