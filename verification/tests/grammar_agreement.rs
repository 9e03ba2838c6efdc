//! The link and summary grammar checked against the same grammar written as
//! regular expressions, on many generated texts.

use percent_encoding::{utf8_percent_encode, AsciiSet, CONTROLS};
use regex::{Regex, RegexBuilder};
use rhizome::page::Page;
use rhizome::replacements::preprocess_internal_links;

const FRAGMENT: &AsciiSet = &CONTROLS.add(b' ').add(b'"').add(b'<').add(b'>').add(b'`');

fn link_regex() -> Regex {
    Regex::new(r"\[(.*?)\]\(([bu]):(.+?)\)").unwrap()
}

fn summary_regex() -> Regex {
    RegexBuilder::new(r"\s*(.+?)$").multi_line(true).build().unwrap()
}

fn expected_links(text: &str) -> Vec<(String, bool, String)> {
    link_regex()
        .captures_iter(text)
        .map(|c| {
            let shown = if !c[1].trim().is_empty() { c[1].trim().to_string() } else { c[3].trim().to_string() };
            (c[3].trim().to_string(), c[2].trim() == "b", shown)
        })
        .collect()
}

fn expected_summary(text: &str) -> Option<String> {
    summary_regex().captures(text).map(|c| c[1].trim().to_string())
}

fn expected_rewrite(text: &str, prefix: &str) -> String {
    let mut content = String::new();
    let mut last = 0;
    for cap in link_regex().captures_iter(text) {
        let whole = cap.get(0).unwrap();
        content.push_str(&text[last..whole.start()]);
        let shown = cap.get(1).unwrap().as_str();
        let url = cap.get(3).unwrap().as_str();
        let shown = if shown.is_empty() { url } else { shown };
        let url: String = utf8_percent_encode(url, FRAGMENT).collect();
        content.push_str(&format!("[{}]({}{})", shown, prefix, url));
        last = whole.end();
    }
    content.push_str(&text[last..]);
    content
}

fn generated_texts() -> Vec<String> {
    let alphabet = ['[', ']', '(', ')', 'b', 'u', ':', ' ', '\n', 'x', 'é', '\t', '\u{a0}', '`'];
    let mut state: u64 = 0x2545_f491_4f6c_dd1d;
    let mut texts = Vec::new();
    for n in 0..4000 {
        let len = n % 23;
        let mut s = String::new();
        for _ in 0..len {
            state = state.wrapping_mul(6364136223846793005).wrapping_add(1442695040888963407);
            let pick = ((state >> 33) % (alphabet.len() as u64 + 6)) as usize;
            if pick < alphabet.len() {
                s.push(alphabet[pick]);
            } else {
                s.push_str(["[x](u:", "[](b:", "](u:", "(b:", ")", "]("][pick - alphabet.len()]);
            }
        }
        texts.push(s);
    }
    texts
}

#[test]
fn links_agree_with_regular_expression() {
    for text in generated_texts() {
        let page = Page::from(&text);
        let got: Vec<(String, bool, String)> = page
            .links
            .iter()
            .map(|l| (l.target.clone(), l.bidirectional, l.text.clone()))
            .collect();
        assert_eq!(got, expected_links(&text), "text: {:?}", text);
    }
}

#[test]
fn summary_agrees_with_regular_expression() {
    for text in generated_texts() {
        assert_eq!(Page::from(&text).summary, expected_summary(&text), "text: {:?}", text);
    }
}

#[test]
fn rewrite_agrees_with_regular_expression() {
    for text in generated_texts() {
        assert_eq!(preprocess_internal_links(&text, "pages/").unwrap(), expected_rewrite(&text, "pages/"), "text: {:?}", text);
    }
}
