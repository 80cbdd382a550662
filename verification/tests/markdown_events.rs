use spellcards::markdown::{markdown_style_events, EmphasisTag, MixedEvent};
use spellcards::strutil::{split_on_exec, str_eq, strip_cr_exec, u8_to_string};

fn text_of(e: &MixedEvent) -> Option<&str> {
    match e {
        MixedEvent::Text(s) => Some(s.as_str()),
        _ => None,
    }
}

#[test]
fn blank_line_is_exactly_one_line_break() {
    // "Para one.\n\nPara two." gives one hard break between the two
    // sentences and no break within either.
    let evs = markdown_style_events("Para one.\n\nPara two.");
    assert_eq!(evs.len(), 3);
    assert_eq!(text_of(&evs[0]), Some("Para one."));
    assert!(matches!(evs[1], MixedEvent::LineEnd));
    assert_eq!(text_of(&evs[2]), Some("Para two."));
}

#[test]
fn br_tag_is_a_paragraph_break_too() {
    let evs = markdown_style_events("one<br />two");
    assert_eq!(evs.len(), 3);
    assert_eq!(text_of(&evs[0]), Some("one"));
    assert!(matches!(evs[1], MixedEvent::LineEnd));
    assert_eq!(text_of(&evs[2]), Some("two"));
}

#[test]
fn strong_and_emphasis_push_and_pop_styles() {
    let evs = markdown_style_events("a **b** *c*");
    let mut styles: Vec<String> = Vec::new();
    for e in &evs {
        match e {
            MixedEvent::Text(s) => styles.push(format!("t:{}", s)),
            MixedEvent::StartStyle(EmphasisTag::Bold) => styles.push("bold".to_string()),
            MixedEvent::StartStyle(EmphasisTag::Italic) => styles.push("italic".to_string()),
            MixedEvent::EndStyle => styles.push("end".to_string()),
            MixedEvent::LineEnd => styles.push("break".to_string()),
        }
    }
    assert_eq!(
        styles,
        vec!["t:a ", "bold", "t:b", "end", "t: ", "italic", "t:c", "end"]
    );
}

#[test]
fn link_renders_as_its_title_in_italics() {
    let evs = markdown_style_events("[body](http://x \"Title\")");
    assert!(matches!(evs[0], MixedEvent::StartStyle(EmphasisTag::Italic)));
    assert_eq!(text_of(&evs[1]), Some("Title"));
    assert!(matches!(evs[2], MixedEvent::EndStyle));
}

#[test]
fn html_list_item_breaks_line_and_emits_bullet() {
    let evs = markdown_style_events("<ul><li>milk</li></ul>");
    // a list item: line break, bullet glyph, then its inner markdown
    let mut found = false;
    for i in 0..evs.len() {
        if matches!(evs[i], MixedEvent::LineEnd) && i + 2 < evs.len() {
            if text_of(&evs[i + 1]) == Some("\u{2022}") && text_of(&evs[i + 2]) == Some("milk") {
                found = true;
            }
        }
    }
    assert!(found);
}

#[test]
fn html_table_row_breaks_and_cells_separate() {
    let evs = markdown_style_events("<table><tr><td>a</td><td>b</td></tr></table>");
    let mut rendered = String::new();
    for e in &evs {
        match e {
            MixedEvent::Text(s) => rendered.push_str(s),
            MixedEvent::LineEnd => rendered.push('\n'),
            _ => {}
        }
    }
    assert_eq!(rendered, "\n|a|b");
}

#[test]
fn carriage_returns_are_stripped() {
    assert_eq!(strip_cr_exec("a\r\nb\r"), "a\nb");
    // a CRLF blank line still separates paragraphs
    let evs = markdown_style_events("one.\r\n\r\ntwo.");
    assert_eq!(evs.len(), 3);
    assert!(matches!(evs[1], MixedEvent::LineEnd));
}

#[test]
fn split_on_keeps_pieces_in_order() {
    let pieces = split_on_exec("a---b---c", "---");
    assert_eq!(pieces, vec!["a", "b", "c"]);
    let no_sep = split_on_exec("abc", "---");
    assert_eq!(no_sep, vec!["abc"]);
    let edges = split_on_exec("--a--", "--");
    assert_eq!(edges, vec!["", "a", ""]);
}

#[test]
fn str_eq_compares_by_characters() {
    assert!(str_eq("abc", "abc"));
    assert!(!str_eq("abc", "abd"));
    assert!(!str_eq("abc", "ab"));
}

#[test]
fn u8_renders_in_decimal() {
    assert_eq!(u8_to_string(0), "0");
    assert_eq!(u8_to_string(7), "7");
    assert_eq!(u8_to_string(42), "42");
    assert_eq!(u8_to_string(215), "215");
}
