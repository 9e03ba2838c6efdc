//! Creating a page and saving an edit of one.

use vstd::prelude::*;
use crate::markup::summary_of;
use crate::page::{links_view, page_links, summary_view, unique_links, Link, Page};
use crate::text::{chars_of, string_of_range, trim, trim_bounds};

verus! {

/// The form that names a new page.
#[derive(Debug)]
pub struct Info {
    pub value: String,
}

/// The title of the page that `form` asks to create: its value, trimmed.
pub fn new_page_title(form: &Info) -> (r: String)
    ensures
        r@ == trim(form.value@),
{
    let cs = chars_of(form.value.as_str());
    let (a, b) = trim_bounds(&cs, 0, cs.len());
    assert(cs@.subrange(0, cs.len() as int) =~= cs@);
    string_of_range(&cs, a, b)
}

/// Where the reading view of the page `title` is: `/pages/<title>`; a new
/// page and a saved edit both lead there.
pub fn page_location(title: &str) -> (r: String)
    ensures
        r@ == "/pages/"@ + title@,
{
    let mut location = "/pages/".to_owned();
    location.append(title);
    location
}

/// The form with the edited markdown of a page.
#[derive(Debug)]
pub struct EditForm {
    pub markdown: String,
}

/// What saving an edit stores and where it leads: the page read from the
/// edited markdown with one link per target, and the reading view of the page.
#[derive(Debug)]
pub struct PageSave {
    pub page: Page,
    pub location: String,
}

/// What saving the edit `form` of the page `title` stores and where it leads.
pub fn plan_page_save(title: &str, form: &EditForm) -> (r: PageSave)
    ensures
        r.page.text@ == form.markdown@,
        summary_view(r.page.summary) == summary_of(form.markdown@),
        unique_links(page_links(form.markdown@), links_view(r.page.links@)),
        r.location@ == "/pages/"@ + title@,
{
    let page = Page::unique(Page::from(form.markdown.as_str()));
    PageSave { page, location: page_location(title) }
}

/// The targets and directions of `links`, as two columns of equal length.
pub fn link_columns(links: &Vec<Link>) -> (r: (Vec<String>, Vec<bool>))
    ensures
        r.0.len() == links.len(),
        r.1.len() == links.len(),
        forall|i: int|
            0 <= i < links.len() ==> (#[trigger] r.0@[i])@ == links@[i].target@ && r.1@[i]
                == links@[i].bidirectional,
{
    let mut targets: Vec<String> = Vec::new();
    let mut directions: Vec<bool> = Vec::new();
    let mut i: usize = 0;
    while i < links.len()
        invariant
            i <= links.len(),
            targets.len() == i,
            directions.len() == i,
            forall|q: int|
                0 <= q < i ==> (#[trigger] targets@[q])@ == links@[q].target@ && directions@[q]
                    == links@[q].bidirectional,
        decreases links.len() - i,
    {
        targets.push(links[i].target.clone());
        directions.push(links[i].bidirectional);
        i = i + 1;
    }
    (targets, directions)
}

} // verus!
