//! Serializer round trips: parsing a document's serialized form gives the
//! same document back.

use micronaut::parse;

#[test]
fn roundtrip_simple() {
    let input = "Hello world";
    let doc = parse(input);
    assert_eq!(doc.to_string(), input);
}

#[test]
fn roundtrip_heading() {
    let input = ">Heading 1";
    let doc = parse(input);
    assert_eq!(doc.to_string(), input);
}

#[test]
fn roundtrip_bold() {
    let input = "`!bold`! normal";
    let doc = parse(input);
    assert_eq!(doc.to_string(), input);
}

#[test]
fn roundtrip_link() {
    let input = "`[click here`https://example.com]";
    let doc = parse(input);
    assert_eq!(doc.to_string(), input);
}

#[test]
fn roundtrip_escape() {
    let input = "backtick: \\` backslash: \\\\";
    let doc = parse(input);
    assert_eq!(doc.to_string(), input);
}

#[test]
fn roundtrip_divider() {
    let input = "-";
    let doc = parse(input);
    assert_eq!(doc.to_string(), input);
}

#[test]
fn roundtrip_multiline() {
    let input = ">Title\nsome text\n-\nmore text";
    let doc = parse(input);
    assert_eq!(doc.to_string(), input);
}

#[test]
fn roundtrip_checkbox_reparses_equal() {
    let doc = parse("`<?|accept|yes|*`I accept>");
    let doc2 = parse(&doc.to_string());
    assert_eq!(doc, doc2);
}

#[test]
fn roundtrip_radio_reparses_equal() {
    let doc = parse("`<^|color|red`Red> `<^|color|blue|*`Blue>");
    let doc2 = parse(&doc.to_string());
    assert_eq!(doc, doc2);
}

#[test]
fn roundtrip_field_empty_default_reparses_equal() {
    let doc = parse("`<20|username`>");
    let doc2 = parse(&doc.to_string());
    assert_eq!(doc, doc2);
}

#[test]
fn roundtrip_escaped_structural_line_reparses_equal() {
    let doc = parse("\\>not a heading\n\\-not a divider\n\\#not a comment");
    let doc2 = parse(&doc.to_string());
    assert_eq!(doc, doc2);
}

#[test]
fn roundtrip_colors_and_partial_reparses_equal() {
    let doc = parse("`Ff00red`f and `Fg50gray`f\n`{/api`10`a|b}");
    let doc2 = parse(&doc.to_string());
    assert_eq!(doc, doc2);
}
