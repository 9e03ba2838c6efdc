use rhizome::page::{Link, Page};

#[test]
fn parse_page() {
    let markdown = r#"
        This is a test page.

        Some more text with a [Unidirectional Link](u:Target Title) and a
        [Bidirectional Link](b:Target Title).

        [](u:Test page)
        "#;
    let page = Page::from(markdown);

    assert_eq!("This is a test page.", page.summary.unwrap());
    assert_eq!(Link {
        text: "Unidirectional Link".to_string(),
        target: "Target Title".to_string(),
        bidirectional: false,
    }, page.links[0]);
    assert_eq!(Link {
        text: "Bidirectional Link".to_string(),
        target: "Target Title".to_string(),
        bidirectional: true,
    }, page.links[1]);
    assert_eq!(Link {
        text: "Test page".to_string(),
        target: "Test page".to_string(),
        bidirectional: false,
    }, page.links[2]);
}

#[test]
fn filter_unique_links() {
    let markdown = r#"
        [uA](u:A) [bA](b:A) [bzA](b:A) [uA](u:A)
        [uB](u:B) [uB](u:B)
        "#;

    let page = Page::unique(Page::from(markdown));

    assert_eq!(Link {
        text: "uB".to_string(),
        target: "B".to_string(),
        bidirectional: false,
    }, page.links[0]);

    assert_eq!(Link {
        text: "bzA".to_string(),
        target: "A".to_string(),
        bidirectional: true,
    }, page.links[1]);
}

#[test]
fn summary_is_first_line_with_content() {
    let page = Page::from("\n   \n  Title line  \nbody [x](u:T)");
    assert_eq!(page.summary, Some("Title line".to_string()));
    assert_eq!(page.text, "\n   \n  Title line  \nbody [x](u:T)");
}

#[test]
fn summary_of_blank_text() {
    assert_eq!(Page::from("  \n ").summary, Some(String::new()));
    assert_eq!(Page::from("\n\n").summary, None);
    assert_eq!(Page::from("").summary, None);
}

#[test]
fn link_text_may_hold_closing_bracket() {
    let page = Page::from("see [a]b](u: T ) and [c](x:D) [d](b:E");
    assert_eq!(page.links.len(), 1);
    assert_eq!(page.links[0], Link {
        text: "a]b".to_string(),
        target: "T".to_string(),
        bidirectional: false,
    });
}

#[test]
fn link_target_takes_at_least_one_character() {
    let page = Page::from("[x](u:)) [y](u:\n)");
    assert_eq!(page.links.len(), 1);
    assert_eq!(page.links[0].target, ")");
    assert_eq!(page.links[0].text, "x");
}

#[test]
fn links_do_not_span_lines() {
    let page = Page::from("[a\nb](u:T) [c](b:U)");
    assert_eq!(page.links.len(), 1);
    assert_eq!(page.links[0].target, "U");
    assert!(page.links[0].bidirectional);
}

#[test]
fn unique_keeps_single_link() {
    let page = Page::unique(Page::from("[ ](u: )"));
    assert_eq!(page.links.len(), 1);
    assert_eq!(page.links[0].target, "");
}

#[test]
fn unique_keeps_one_link_to_empty_target() {
    let page = Page::unique(Page::from("[a](u: ) [b](b: )"));
    assert_eq!(page.links.len(), 1);
    assert_eq!(page.links[0].target, "");
    assert!(page.links[0].bidirectional);
    assert_eq!(page.links[0].text, "b");
}

#[test]
fn unique_keeps_unnamed_target_beside_named_ones() {
    let page = Page::unique(Page::from("[a](u: ) [b](b:Z) [c](u: )"));
    assert_eq!(page.links.len(), 2);
    assert_eq!(page.links[0].target, "Z");
    assert_eq!(page.links[1].target, "");
    assert_eq!(page.links[1].text, "c");
}

#[test]
fn unique_is_idempotent() {
    let markdown = "[x](u:B) [y](b:A) [z](u:A) [w](u:C) [v](b:B)";
    let once = Page::unique(Page::from(markdown));
    let targets: Vec<String> = once.links.iter().map(|l| l.target.clone()).collect();
    assert_eq!(targets, vec!["C".to_string(), "B".to_string(), "A".to_string()]);
    assert!(once.links[1].bidirectional);
    assert_eq!(once.links[1].text, "v");
    let texts: Vec<String> = once.links.iter().map(|l| l.text.clone()).collect();
    let twice = Page::unique(once);
    let texts_again: Vec<String> = twice.links.iter().map(|l| l.text.clone()).collect();
    assert_eq!(texts, texts_again);
}

#[test]
fn links_order_by_target_then_direction_then_text() {
    let link = |target: &str, bidirectional: bool, text: &str| Link {
        target: target.to_string(),
        bidirectional,
        text: text.to_string(),
    };
    assert!(link("A", true, "z") < link("B", false, "a"));
    assert!(link("A", false, "z") < link("A", true, "a"));
    assert!(link("A", true, "a") < link("A", true, "b"));
    assert!(link("", true, "a") < link("a", false, ""));
}

#[test]
fn links_split_at_line_breaks() {
    let a = "x [a](u:A";
    let b = ") [b](b:B)";
    let joined = Page::from(&format!("{}\n{}", a, b));
    let first = Page::from(a);
    let second = Page::from(b);
    assert_eq!(first.links.len() + second.links.len(), joined.links.len());
    assert_eq!(joined.links.len(), 1);
    assert_eq!(joined.links[0], second.links[0]);
}
