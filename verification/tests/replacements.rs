use rhizome::error::KBError;
use rhizome::replacements::{
    encode_internal_link_with_spaces, markdown2html, preprocess_internal_links,
    utf8_percent_encode,
};

#[test]
fn internal_links_are_rewritten_with_prefix() {
    let out = preprocess_internal_links("a [My Link](u:My Page) b [](b:Other)", "pages/").unwrap();
    assert_eq!(out, "a [My Link](pages/My%20Page) b [Other](pages/Other)");
}

#[test]
fn text_without_links_is_kept() {
    let text = "no [links](here) at all\n[x](q:y)";
    assert_eq!(preprocess_internal_links(text, "p/").unwrap(), text);
}

#[test]
fn link_text_is_not_trimmed_in_rewrite() {
    let out = preprocess_internal_links("[ t ](u: x )", "").unwrap();
    assert_eq!(out, "[ t ](%20x%20)");
}

#[test]
fn fragment_set_encoding() {
    assert_eq!(utf8_percent_encode("a b\"<>`c\u{7f}%/?"), "a%20b%22%3C%3E%60c%7F%/?");
    assert_eq!(utf8_percent_encode("é"), "%C3%A9");
}

#[test]
fn single_link_encoding() {
    assert_eq!(encode_internal_link_with_spaces("", "A B", "x/").unwrap(), "[A B](x/A%20B)");
    assert_eq!(encode_internal_link_with_spaces("t", "A", "").unwrap(), "[t](A)");
}

#[test]
fn markdown_is_rendered_after_rewriting() {
    let html = markdown2html("See [it](u:Some Page).", "pages/").unwrap();
    assert_eq!(html, "<p>See <a href=\"pages/Some%20Page\">it</a>.</p>\n");
}

#[test]
fn markdown_tables_are_rendered() {
    let html = markdown2html("| a |\n|---|\n| b |\n", "").unwrap();
    assert!(html.contains("<table>"));
}

#[test]
fn errors_say_what_went_wrong() {
    assert_eq!(KBError::LoginError("nope".to_string()).to_string(), "nope");
    assert_eq!(KBError::InvalidCredentials("Invalid password.".to_string()).to_string(), "Invalid credentials.");
    assert_eq!(KBError::UnexpectedError("boom".to_string()).to_string(), "boom");
    assert_eq!(KBError::UnexpectedError("boom".to_string()).status_code(), 500);
}

#[test]
fn rewriting_splits_at_line_breaks() {
    let a = "[a](u:A B) [c](b:";
    let b = "C) [d](u:D)";
    let joined = preprocess_internal_links(&format!("{}\n{}", a, b), "p/").unwrap();
    let parts = format!(
        "{}\n{}",
        preprocess_internal_links(a, "p/").unwrap(),
        preprocess_internal_links(b, "p/").unwrap()
    );
    assert_eq!(joined, parts);
    assert_eq!(joined, "[a](p/A%20B) [c](b:\nC) [d](p/D)");
}
