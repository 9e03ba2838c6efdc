//! Reading a page and opening it for editing.

use vstd::prelude::*;
use crate::replacements::{markdown2html, markdown_html, preprocessed};
use crate::routes::pages::{summarize_all, summarizes, utc_date_of, PageInfo, PageSummary};
use crate::text::chars_of;

verus! {

/// What the reading view of a page shows: its title, its id, its content
/// rendered to HTML, and the pages that link to it.
#[derive(Debug)]
pub struct ReadPage {
    pub title: String,
    pub id: String,
    pub content: String,
    pub backlinks: Vec<PageSummary>,
}

impl ReadPage {
    /// The reading view of the page titled `title` with the markdown
    /// `markdown`, linked to by the pages `backlinks`. Internal links lead to
    /// bare titles (the prefix is empty), both in the content and in the
    /// summaries of the backlinks. None where the day of a backlink's last
    /// edit cannot be written.
    pub fn new(title: &str, markdown: &str, backlinks: &Vec<PageInfo>) -> (r: Option<ReadPage>)
        ensures
            match r {
                Some(view) => {
                    &&& view.title@ == title@
                    &&& view.id@ == title@
                    &&& view.content@ == markdown_html(preprocessed(markdown@, Seq::empty()))
                    &&& view.backlinks.len() == backlinks.len()
                    &&& forall|i: int|
                        0 <= i < backlinks.len() ==> summarizes(
                            #[trigger] view.backlinks@[i],
                            backlinks@[i],
                            Seq::empty(),
                        )
                },
                None => exists|i: int|
                    0 <= i < backlinks.len() && (utc_date_of(
                        #[trigger] backlinks@[i].updated_at as int,
                    ) is None),
            },
    {
        let no_prefix = "";
        proof {
            reveal_strlit("");
            assert(no_prefix@ =~= Seq::<char>::empty());
        }
        let content = match markdown2html(markdown, no_prefix) {
            Ok(html) => html,
            Err(_) => {
                return None;
            },
        };
        let summaries = match summarize_all(backlinks, no_prefix) {
            Some(list) => list,
            None => {
                return None;
            },
        };
        Some(
            ReadPage {
                title: title.to_owned(),
                id: title.to_owned(),
                content,
                backlinks: summaries,
            },
        )
    }
}

/// `s` made fit for a JavaScript template literal: each backtick is preceded
/// by a backslash.
pub open spec fn escape_backticks(s: Seq<char>) -> Seq<char>
    decreases s.len(),
{
    if s.len() == 0 {
        Seq::empty()
    } else {
        escape_backticks(s.drop_last()) + if s.last() == '`' {
            seq!['\\', '`']
        } else {
            seq![s.last()]
        }
    }
}

/// Law: backticks are escaped one character at a time: escaping two texts one
/// after the other gives their two escapes one after the other.
pub proof fn lemma_escape_backticks_concat(x: Seq<char>, y: Seq<char>)
    ensures
        escape_backticks(x + y) == escape_backticks(x) + escape_backticks(y),
    decreases y.len(),
{
    if y.len() == 0 {
        assert(x + y =~= x);
        assert(escape_backticks(x) + escape_backticks(y) =~= escape_backticks(x));
    } else {
        assert((x + y).drop_last() =~= x + y.drop_last());
        assert((x + y).last() == y.last());
        lemma_escape_backticks_concat(x, y.drop_last());
    }
}

/// Law: a backtick alone becomes a backslash and the backtick; any other
/// character alone stays as it is.
pub proof fn lemma_escape_backticks_char(c: char)
    ensures
        escape_backticks(seq![c]) == if c == '`' {
            seq!['\\', '`']
        } else {
            seq![c]
        },
{
    let one = seq![c];
    assert(one.drop_last() =~= Seq::<char>::empty());
    assert(escape_backticks(one.drop_last()) == Seq::<char>::empty());
    let piece = if c == '`' {
        seq!['\\', '`']
    } else {
        seq![c]
    };
    assert(escape_backticks(one) =~= Seq::<char>::empty() + piece);
}

/// Law: in escaped text every backtick directly follows a backslash, so none
/// of them can end the template literal.
pub proof fn lemma_escaped_backticks_follow_backslash(s: Seq<char>)
    ensures
        forall|i: int|
            0 <= i < escape_backticks(s).len() && #[trigger] escape_backticks(s)[i] == '`' ==> i > 0
                && escape_backticks(s)[i - 1] == '\\',
    decreases s.len(),
{
    if s.len() > 0 {
        lemma_escaped_backticks_follow_backslash(s.drop_last());
        let front = escape_backticks(s.drop_last());
        let r = escape_backticks(s);
        assert forall|i: int| 0 <= i < r.len() && #[trigger] r[i] == '`' implies i > 0 && r[i
            - 1] == '\\' by {
            if i < front.len() {
                assert(r[i] == front[i] && r[i - 1] == front[i - 1]);
            }
        }
    }
}

/// What the editing view of a page shows: its id, its title and its markdown.
#[derive(Debug)]
pub struct EditPage {
    pub id: String,
    pub title: String,
    pub content: String,
}

impl EditPage {
    /// The editing view of the page `title` with id `id` and markdown
    /// `content`; the markdown goes into a JavaScript template literal, so
    /// its backticks are escaped (see [`escape_backticks`]).
    pub fn new(id: &str, title: &str, content: &str) -> (r: EditPage)
        ensures
            r.id@ == id@,
            r.title@ == title@,
            r.content@ == escape_backticks(content@),
    {
        let cs = chars_of(content);
        let mut escaped = String::new();
        let mut i: usize = 0;
        while i < cs.len()
            invariant
                i <= cs.len(),
                cs@ == content@,
                escaped@ == escape_backticks(cs@.subrange(0, i as int)),
            decreases cs.len() - i,
        {
            assert(cs@.subrange(0, i + 1).drop_last() =~= cs@.subrange(0, i as int));
            if cs[i] == '`' {
                escaped.push('\\');
                escaped.push('`');
            } else {
                escaped.push(cs[i]);
            }
            assert(escaped@ =~= escape_backticks(cs@.subrange(0, i + 1)));
            i = i + 1;
        }
        assert(cs@.subrange(0, i as int) =~= cs@);
        EditPage { id: id.to_owned(), title: title.to_owned(), content: escaped }
    }
}

} // verus!
