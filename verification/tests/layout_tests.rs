//! The layout engine: hitbox rows and column ranges, wrapping at the
//! viewport width, and display widths of wide characters.

use micronaut::{parse, render_document, FormState};

#[test]
fn test_hitbox_positions_simple() {
    let doc = parse("Hello `[Link`http://x]");
    let output = render_document(&doc, 80, &FormState::default(), None);
    assert_eq!(output.hitboxes.len(), 1);
    let hb = &output.hitboxes[0];
    assert_eq!(hb.line, 0);
    assert_eq!(hb.col_start, 6);
    assert_eq!(hb.col_end, 10);
}

#[test]
fn test_hitbox_wrapped_link() {
    let doc = parse("Some text `[Click here now`http://x]");
    let output = render_document(&doc, 18, &FormState::default(), None);
    assert_eq!(output.hitboxes.len(), 2, "Expected 2 hitboxes for wrapped link");

    assert_eq!(output.hitboxes[0].line, 0);
    assert_eq!(output.hitboxes[0].col_start, 10);
    assert_eq!(output.hitboxes[0].col_end, 18);

    assert_eq!(output.hitboxes[1].line, 1);
    assert_eq!(output.hitboxes[1].col_start, 0);
    assert_eq!(output.hitboxes[1].col_end, 6);
}

#[test]
fn test_hitbox_after_emoji() {
    let doc = parse("\u{1F980} `[Go`http://x]");
    let output = render_document(&doc, 80, &FormState::default(), None);
    assert_eq!(output.hitboxes.len(), 1);
    let hb = &output.hitboxes[0];
    assert_eq!(hb.col_start, 3, "emoji is 2 cols wide + 1 space = col 3");
    assert_eq!(hb.col_end, 5, "Go is 2 chars wide");
}

#[test]
fn test_hitbox_link_starts_on_wrapped_line() {
    let doc = parse("0123456789`[Link`http://x]");
    let output = render_document(&doc, 10, &FormState::default(), None);

    assert_eq!(output.height, 2, "Should be 2 lines");
    assert_eq!(output.hitboxes.len(), 1);
    let hb = &output.hitboxes[0];
    assert_eq!(hb.line, 1, "Link should be on line 1 (after wrap)");
    assert_eq!(hb.col_start, 0);
    assert_eq!(hb.col_end, 4);
}

#[test]
fn test_hitbox_link_wraps_at_exact_boundary() {
    let doc = parse("12345`[ABCDE`http://x]");
    let output = render_document(&doc, 10, &FormState::default(), None);

    assert_eq!(output.height, 1, "Should be 1 line (exactly 10 chars)");
    assert_eq!(output.hitboxes.len(), 1, "Link fits on first line, no wrap");
    let hb = &output.hitboxes[0];
    assert_eq!(hb.line, 0);
    assert_eq!(hb.col_start, 5);
    assert_eq!(hb.col_end, 10);
}

#[test]
fn test_hitbox_link_wraps_one_char_over() {
    let doc = parse("12345`[ABCDEF`http://x]");
    let output = render_document(&doc, 10, &FormState::default(), None);

    assert_eq!(output.height, 2, "Should be 2 lines");
    assert_eq!(output.hitboxes.len(), 2, "Link wraps, should have 2 hitboxes");

    assert_eq!(output.hitboxes[0].line, 0);
    assert_eq!(output.hitboxes[0].col_start, 5);
    assert_eq!(output.hitboxes[0].col_end, 10);

    assert_eq!(output.hitboxes[1].line, 1);
    assert_eq!(output.hitboxes[1].col_start, 0);
    assert_eq!(output.hitboxes[1].col_end, 1);
}

#[test]
fn test_hitbox_multiple_lines_before_link() {
    let doc = parse("Line one here.\nSecond line. `[Link`http://x]");
    let output = render_document(&doc, 80, &FormState::default(), None);

    assert_eq!(output.hitboxes.len(), 1);
    let hb = &output.hitboxes[0];
    assert_eq!(hb.line, 1, "Link should be on second document line");
    assert_eq!(hb.col_start, 13);
    assert_eq!(hb.col_end, 17);
}

#[test]
fn test_hitbox_wrapped_text_then_link() {
    let doc = parse("This is a long line of text `[Link`http://x]");
    let output = render_document(&doc, 15, &FormState::default(), None);

    println!("Height: {}", output.height);
    for (i, hb) in output.hitboxes.iter().enumerate() {
        println!(
            "Hitbox {}: line={}, col_start={}, col_end={}",
            i, hb.line, hb.col_start, hb.col_end
        );
    }

    assert!(output.hitboxes.len() >= 1);
    let last_hb = output.hitboxes.last().unwrap();
    assert!(last_hb.col_end <= 15, "Hitbox should not exceed line width");
}

#[test]
fn test_hitbox_second_line_wrapped_link() {
    let doc = parse("First line\nSome text `[Click here`http://x]");
    let output = render_document(&doc, 14, &FormState::default(), None);

    println!("Height: {}", output.height);
    for (i, hb) in output.hitboxes.iter().enumerate() {
        println!(
            "Hitbox {}: line={}, col_start={}, col_end={}",
            i, hb.line, hb.col_start, hb.col_end
        );
    }

    assert_eq!(output.hitboxes.len(), 2, "Link should wrap into 2 hitboxes");

    assert_eq!(output.hitboxes[0].line, 1, "First part of link on rendered line 1");
    assert_eq!(output.hitboxes[0].col_start, 10);
    assert_eq!(output.hitboxes[0].col_end, 14);

    assert_eq!(output.hitboxes[1].line, 2, "Second part of link on rendered line 2");
    assert_eq!(output.hitboxes[1].col_start, 0);
    assert_eq!(output.hitboxes[1].col_end, 6);
}
