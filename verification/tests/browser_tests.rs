//! The browser state machine: navigation, form state, selection, editing and
//! clicks, driven through a minimal in-memory renderer.

use micronaut::{
    Browser, Document, Element, FieldKind, FormState, Hitbox, InputResult, Interactable,
    RenderOutput, Renderer,
};

struct NullRenderer;

impl Renderer for NullRenderer {
    type Output = ();

    fn render(
        &self,
        doc: &Document,
        _width: u16,
        _form_state: &FormState,
        _selected: Option<usize>,
    ) -> RenderOutput<()> {
        let mut hitboxes = Vec::new();
        let mut idx = 0usize;
        for (line_idx, line) in doc.lines.iter().enumerate() {
            let mut col = 0;
            for element in &line.elements {
                match element {
                    Element::Link(link) => {
                        let len = link.label.len();
                        hitboxes.push(Hitbox {
                            line: line_idx,
                            col_start: col,
                            col_end: col + len,
                            interactable: Interactable::Link {
                                url: link.url.clone(),
                                fields: link.fields.clone(),
                            },
                            interactable_idx: idx,
                        });
                        idx += 1;
                        col += len;
                    }
                    Element::Field(field) => {
                        let len = 24;
                        let interactable = match &field.kind {
                            FieldKind::Text => Interactable::TextField {
                                name: field.name.clone(),
                                masked: field.masked,
                                default: field.default.clone(),
                            },
                            FieldKind::Checkbox { .. } => Interactable::Checkbox {
                                name: field.name.clone(),
                            },
                            FieldKind::Radio { value, .. } => Interactable::Radio {
                                name: field.name.clone(),
                                value: value.clone(),
                            },
                        };
                        hitboxes.push(Hitbox {
                            line: line_idx,
                            col_start: col,
                            col_end: col + len,
                            interactable,
                            interactable_idx: idx,
                        });
                        idx += 1;
                        col += len;
                    }
                    Element::Text(t) => {
                        col += t.text.len();
                    }
                    Element::Partial(_) => {}
                }
            }
        }
        RenderOutput {
            content: (),
            hitboxes,
            height: doc.lines.len() as u16,
        }
    }
}

fn form_state(browser: &mut Browser<NullRenderer>) -> FormState {
    browser.render();
    browser.form_state()
}

#[test]
fn initial_state() {
    let browser = Browser::new(NullRenderer);
    assert!(!browser.has_content());
    assert!(browser.url().is_none());
    assert!(!browser.can_go_back());
    assert!(!browser.can_go_forward());
}

#[test]
fn set_content_and_back() {
    let mut browser = Browser::new(NullRenderer);
    browser.set_content("/page1", "Page 1");
    assert_eq!(browser.url(), Some("/page1"));

    browser.set_content("/page2", "Page 2");
    assert_eq!(browser.url(), Some("/page2"));
    assert!(browser.can_go_back());
    assert!(!browser.can_go_forward());

    browser.back();
    assert_eq!(browser.url(), Some("/page1"));
    assert!(browser.can_go_forward());

    browser.forward();
    assert_eq!(browser.url(), Some("/page2"));
    assert!(!browser.can_go_forward());
}

#[test]
fn scroll() {
    let mut browser = Browser::new(NullRenderer);
    browser.resize(80, 10);
    browser.set_content("/test", "a\nb\nc\nd\ne\nf\ng\nh\ni\nj\nk\nl\nm\nn\no");

    browser.scroll_by(5);
    assert_eq!(browser.scroll(), 5);

    browser.scroll_by(-3);
    assert_eq!(browser.scroll(), 2);

    browser.scroll_to(0);
    assert_eq!(browser.scroll(), 0);
}

#[test]
fn click_link() {
    let mut browser = Browser::new(NullRenderer);
    browser.set_content("/test", "`[Click Me`http://target]");

    let link = browser.click(3, 0);
    assert!(link.is_some());
    assert_eq!(link.unwrap().url, "http://target");
}

#[test]
fn checkbox_toggle() {
    let mut browser = Browser::new(NullRenderer);
    browser.set_content("/test", "`<?|agree|yes`I agree>");

    assert!(!form_state(&mut browser).checkboxes.get("agree").copied().unwrap_or(false));
    browser.interact();
    assert!(form_state(&mut browser).checkboxes.get("agree").copied().unwrap_or(false));
}

#[test]
fn text_input() {
    let mut browser = Browser::new(NullRenderer);
    browser.set_content("/test", "`<|name`>");

    browser.interact();
    assert!(browser.is_editing());

    browser.input_char('H');
    browser.input_char('i');
    assert_eq!(form_state(&mut browser).fields.get("name"), Some(&"Hi".to_string()));

    browser.input_backspace();
    assert_eq!(form_state(&mut browser).fields.get("name"), Some(&"H".to_string()));
}

#[test]
fn text_field_with_default() {
    let mut browser = Browser::new(NullRenderer);
    browser.set_content("/test", "`<|name`John>");

    assert_eq!(form_state(&mut browser).fields.get("name"), Some(&"John".to_string()));

    browser.interact();
    browser.input_char('!');
    assert_eq!(form_state(&mut browser).fields.get("name"), Some(&"John!".to_string()));
}

#[test]
fn form_data_collection() {
    let mut browser = Browser::new(NullRenderer);
    browser.set_content("/test", "`<|user`>\n`<|msg`>\n`[Submit`/send`user|msg|action=go]");

    browser.interact();
    browser.input_char('A');
    browser.cancel_edit();

    browser.select_next();
    browser.interact();
    browser.input_char('B');
    browser.cancel_edit();

    browser.select_next();
    let link = browser.interact().unwrap();

    assert_eq!(link.url, "/send");
    assert_eq!(link.form_data.get("user"), Some(&"A".to_string()));
    assert_eq!(link.form_data.get("msg"), Some(&"B".to_string()));
    assert_eq!(link.form_data.get("action"), Some(&"go".to_string()));
}

#[test]
fn select_next_prev_cycles() {
    let mut browser = Browser::new(NullRenderer);
    browser.set_content("/test", "`[A`/a]\n`[B`/b]\n`[C`/c]");

    assert_eq!(browser.selected_link(), Some("/a"));
    browser.select_next();
    assert_eq!(browser.selected_link(), Some("/b"));
    browser.select_next();
    assert_eq!(browser.selected_link(), Some("/c"));
    browser.select_next();
    assert_eq!(browser.selected_link(), Some("/a"));

    browser.select_prev();
    assert_eq!(browser.selected_link(), Some("/c"));
}

#[test]
fn radio_button_selection() {
    let mut browser = Browser::new(NullRenderer);
    browser.set_content(
        "/test",
        "`<^|color|red`Red>\n`<^|color|blue`Blue>\n`<^|color|green`Green>",
    );

    assert_eq!(form_state(&mut browser).radios.get("color"), Some(&"red".to_string()));

    browser.select_next();
    browser.interact();
    assert_eq!(form_state(&mut browser).radios.get("color"), Some(&"blue".to_string()));

    browser.select_next();
    browser.interact();
    assert_eq!(form_state(&mut browser).radios.get("color"), Some(&"green".to_string()));
}

#[test]
fn resize_triggers_rebuild() {
    let mut browser = Browser::new(NullRenderer);
    browser.set_content("/test", "Hello world");
    browser.render();

    browser.resize(40, 20);
    assert!(browser.render().is_some());
}

#[test]
fn navigation_clears_form_state() {
    let mut browser = Browser::new(NullRenderer);
    browser.set_content("/page1", "`<|name`>");

    browser.interact();
    browser.input_char('X');
    browser.cancel_edit();
    assert_eq!(form_state(&mut browser).fields.get("name"), Some(&"X".to_string()));

    browser.set_content("/page2", "`<|name`>");
    assert_eq!(form_state(&mut browser).fields.get("name"), Some(&"".to_string()));
}

#[test]
fn back_preserves_scroll_position() {
    let mut browser = Browser::new(NullRenderer);
    browser.resize(80, 10);
    browser.set_content("/page1", "a\nb\nc\nd\ne\nf\ng\nh\ni\nj\nk\nl\nm\nn\no");
    browser.scroll_to(5);

    browser.set_content("/page2", "Page 2");
    assert_eq!(browser.scroll(), 0);

    browser.back();
    assert_eq!(browser.scroll(), 5);
}

#[test]
fn directory_navigation_simulation() {
    let mut browser = Browser::new(NullRenderer);

    let index = r#">Welcome
`[Documents`/docs]
`[Settings`/settings]
`[About`/about]"#;

    let docs = r#">Documents
`[Back`/]
-
`[Report.pdf`/docs/report]
`[Notes.txt`/docs/notes]"#;

    let report = r#">Report
`[Back to Documents`/docs]
-
This is the report content."#;

    browser.set_content("/", index);
    assert_eq!(browser.url(), Some("/"));
    assert_eq!(browser.selected_link(), Some("/docs"));

    let link = browser.interact().unwrap();
    assert_eq!(link.url, "/docs");
    browser.set_content("/docs", docs);
    assert_eq!(browser.url(), Some("/docs"));

    browser.select_next();
    assert_eq!(browser.selected_link(), Some("/docs/report"));

    let link = browser.interact().unwrap();
    browser.set_content(&link.url, report);
    assert_eq!(browser.url(), Some("/docs/report"));

    assert!(browser.can_go_back());
    browser.back();
    assert_eq!(browser.url(), Some("/docs"));

    browser.back();
    assert_eq!(browser.url(), Some("/"));

    browser.forward();
    assert_eq!(browser.url(), Some("/docs"));
}

#[test]
fn login_form_simulation() {
    let mut browser = Browser::new(NullRenderer);

    let login_page = r#">Login
`<|username`>
`<!|password`>
`[Login`/auth`username|password]"#;

    browser.set_content("/login", login_page);

    browser.interact();
    for c in "alice".chars() {
        browser.input_char(c);
    }
    browser.cancel_edit();

    browser.select_next();
    browser.interact();
    for c in "secret123".chars() {
        browser.input_char(c);
    }
    browser.cancel_edit();

    browser.select_next();
    let link = browser.interact().unwrap();

    assert_eq!(link.url, "/auth");
    assert_eq!(link.form_data.get("username"), Some(&"alice".to_string()));
    assert_eq!(link.form_data.get("password"), Some(&"secret123".to_string()));
}

#[test]
fn search_with_wildcard_fields() {
    let mut browser = Browser::new(NullRenderer);

    let search_page = r#"`<|query`>
`<?|exact|1`Exact match>
`[Search`/search`*]"#;

    browser.set_content("/search", search_page);

    browser.interact();
    for c in "rust".chars() {
        browser.input_char(c);
    }
    browser.cancel_edit();

    browser.select_next();
    browser.interact();

    browser.select_next();
    let link = browser.interact().unwrap();

    assert_eq!(link.url, "/search");
    assert_eq!(link.form_data.get("query"), Some(&"rust".to_string()));
    assert_eq!(link.form_data.get("exact"), Some(&"1".to_string()));
}

#[test]
fn empty_content_handling() {
    let mut browser = Browser::new(NullRenderer);
    browser.set_content("/empty", "");

    assert!(browser.has_content());
    assert!(browser.render().is_some());
    assert!(browser.selected_link().is_none());

    browser.select_next();
    browser.select_prev();
    assert!(browser.interact().is_none());
}

#[test]
fn input_ignored_when_not_editing() {
    let mut browser = Browser::new(NullRenderer);
    browser.set_content("/test", "`[Link`/target]");

    assert_eq!(browser.input_char('x'), InputResult::Ignored);
    assert_eq!(browser.input_backspace(), InputResult::Ignored);
}

#[test]
fn cancel_edit_when_not_editing() {
    let mut browser = Browser::new(NullRenderer);
    browser.set_content("/test", "`<|name`>");

    browser.cancel_edit();
    assert!(!browser.is_editing());
}

#[test]
fn click_outside_hitbox() {
    let mut browser = Browser::new(NullRenderer);
    browser.set_content("/test", "`[Link`/target]");

    let result = browser.click(100, 100);
    assert!(result.is_none());
}

#[test]
fn click_outside_defocuses_field() {
    let mut browser = Browser::new(NullRenderer);
    browser.set_content("/test", "`<|name`Enter name>");

    browser.interact();
    assert!(browser.is_editing());

    browser.click(100, 100);
    assert!(!browser.is_editing());
}

#[test]
fn multiple_back_forward() {
    let mut browser = Browser::new(NullRenderer);

    browser.set_content("/a", "A");
    browser.set_content("/b", "B");
    browser.set_content("/c", "C");
    browser.set_content("/d", "D");

    assert_eq!(browser.url(), Some("/d"));

    browser.back();
    browser.back();
    assert_eq!(browser.url(), Some("/b"));

    browser.forward();
    assert_eq!(browser.url(), Some("/c"));

    browser.set_content("/e", "E");
    assert!(!browser.can_go_forward());
    assert_eq!(browser.url(), Some("/e"));

    browser.back();
    assert_eq!(browser.url(), Some("/c"));
}
