//! The fluent construction API, checked through serialization.

use micronaut::{Color, Document, Field, Line, LinkElement, Style};

#[test]
fn build_simple_doc() {
    let mut doc = Document::new();
    doc.push(Line::heading(1).text("Hello World"));
    doc.push(Line::normal().text("Some ").bold("bold").text(" text"));
    doc.push(Line::divider());

    assert_eq!(doc.to_string(), ">Hello World\nSome `!bold`! text\n-");
}

#[test]
fn build_link() {
    let mut doc = Document::new();
    doc.push(
        Line::normal()
            .text("Click ")
            .link(LinkElement::new("https://example.com").label("here")),
    );

    assert_eq!(doc.to_string(), "Click `[here`https://example.com]");
}

#[test]
fn build_with_color() {
    let mut doc = Document::new();
    doc.push(Line::normal().styled("red text", Style::new().fg(Color::hex(0xFF0000))));

    assert_eq!(doc.to_string(), "`Ff00red text");
}

#[test]
fn build_field() {
    let mut doc = Document::new();
    doc.push(
        Line::normal()
            .text("Name: ")
            .field(Field::text("username").width(20).default("guest")),
    );

    assert_eq!(doc.to_string(), "Name: `<20|username`guest>");
}
