//! Answers that the routes share: redirects with an optional flash message,
//! and the HTML of the flash messages that a page shows.

use vstd::prelude::*;

verus! {

/// How a flash message is meant.
#[derive(Clone, Copy, Debug, PartialEq, Eq, Structural)]
pub enum FlashLevel {
    Info,
    Error,
}

/// A message that is shown once, on the next page the user sees.
#[derive(Debug)]
pub struct Flash {
    pub level: FlashLevel,
    pub content: String,
}

/// An answer that sends the user to `location` ("303 See Other"), with a
/// flash message to show there, if any.
#[derive(Debug)]
pub struct Redirect {
    pub location: String,
    pub flash: Option<Flash>,
}

/// Whether `r` sends the user to `location` without a flash message.
pub open spec fn plain_redirect(r: Redirect, location: Seq<char>) -> bool {
    r.location@ == location && r.flash is None
}

/// Whether `r` sends the user to `location` with a flash message of `level`
/// that says `content`.
pub open spec fn flash_redirect(r: Redirect, location: Seq<char>, level: FlashLevel, content: Seq<char>) -> bool {
    &&& r.location@ == location
    &&& r.flash matches Some(f) && f.level == level && f.content@ == content
}

/// Sends the user to `location`.
pub fn see_other(location: &str) -> (r: Redirect)
    ensures
        plain_redirect(r, location@),
{
    Redirect { location: location.to_owned(), flash: None }
}

/// Sends the user to `location` with the flash message `content` of `level`.
pub fn see_other_with(location: &str, level: FlashLevel, content: &str) -> (r: Redirect)
    ensures
        flash_redirect(r, location@, level, content@),
{
    Redirect { location: location.to_owned(), flash: Some(Flash { level, content: content.to_owned() }) }
}

/// The HTML of flash messages: each message in a paragraph of its own, in
/// italics, followed by a line break.
pub open spec fn messages_html(messages: Seq<Seq<char>>) -> Seq<char>
    decreases messages.len(),
{
    if messages.len() == 0 {
        Seq::empty()
    } else {
        messages_html(messages.drop_last()) + "<p><i>"@ + messages.last() + "</i></p>\n"@
    }
}

/// Law: the messages are written one after the other: the HTML of two lists
/// of messages one after the other is their two HTMLs one after the other.
pub proof fn lemma_messages_html_concat(a: Seq<Seq<char>>, b: Seq<Seq<char>>)
    ensures
        messages_html(a + b) == messages_html(a) + messages_html(b),
    decreases b.len(),
{
    if b.len() == 0 {
        assert(a + b =~= a);
        assert(messages_html(a) + messages_html(b) =~= messages_html(a));
    } else {
        assert((a + b).drop_last() =~= a + b.drop_last());
        assert((a + b).last() == b.last());
        lemma_messages_html_concat(a, b.drop_last());
    }
}

/// Law: one message is shown as `<p><i>`, the message, `</i></p>` and a line break.
pub proof fn lemma_messages_html_one(m: Seq<char>)
    ensures
        messages_html(seq![m]) == "<p><i>"@ + m + "</i></p>\n"@,
{
    let one = seq![m];
    assert(one.drop_last() =~= Seq::<Seq<char>>::empty());
    assert(messages_html(one.drop_last()) == Seq::<char>::empty());
    assert(messages_html(one) =~= "<p><i>"@ + m + "</i></p>\n"@);
}

/// The HTML of the contents of the flash messages `messages`, in order (see
/// [`messages_html`]).
pub fn collect_messages_as_html(messages: Vec<String>) -> (r: String)
    ensures
        r@ == messages_html(messages@.map_values(|m: String| m@)),
{
    let ghost ms = messages@.map_values(|m: String| m@);
    let mut html = String::new();
    let mut i: usize = 0;
    while i < messages.len()
        invariant
            i <= messages.len(),
            ms == messages@.map_values(|m: String| m@),
            html@ == messages_html(ms.subrange(0, i as int)),
        decreases messages.len() - i,
    {
        html.append("<p><i>");
        html.append(messages[i].as_str());
        html.append("</i></p>\n");
        assert(ms.subrange(0, i + 1).drop_last() =~= ms.subrange(0, i as int));
        i = i + 1;
    }
    assert(ms.subrange(0, i as int) =~= ms);
    html
}

} // verus!
