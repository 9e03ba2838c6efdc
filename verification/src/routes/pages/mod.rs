//! Pages: reading, editing, creating, saving, searching and suggesting them.

pub mod get;
pub mod post;
pub mod search;
pub mod suggest;

use vstd::prelude::*;
use crate::replacements::{markdown2html, markdown_html, preprocessed};

verus! {

/// A page as lists show it: where it is, its title, the day it was last
/// edited, and its summary rendered to HTML.
#[derive(Debug)]
pub struct PageSummary {
    pub url: String,
    pub title: String,
    pub updated_at: String,
    pub summary: Option<String>,
}

/// A page as the database lists it: its title, when it was last edited (in
/// seconds since the Unix epoch, UTC) and its markdown summary.
#[derive(Debug)]
pub struct PageInfo {
    pub title: String,
    pub updated_at: i64,
    pub summary: Option<String>,
}

/// The day of the instant `secs` seconds after the Unix epoch, in UTC, as
/// `chrono` formats it with `%Y-%m-%d`; none where `chrono` cannot represent
/// the instant.
pub uninterp spec fn utc_date_of(secs: int) -> Option<Seq<char>>;

/// `chrono::DateTime::from_timestamp(secs, 0)` formatted with `%Y-%m-%d`.
/// The text depends on `secs` alone; this contract names it [`utc_date_of`]
/// and states nothing of its shape.
#[verifier::external_body]
fn format_utc_day(secs: i64) -> (r: Option<String>)
    ensures
        match r {
            Some(day) => utc_date_of(secs as int) == Some(day@),
            None => utc_date_of(secs as int) is None,
        },
{
    match chrono::DateTime::from_timestamp(secs, 0) {
        Some(instant) => Some(instant.format("%Y-%m-%d").to_string()),
        None => None,
    }
}

/// Whether `s` is how a list shows the page `info` when its links lead to
/// `prefix` followed by a title: the page's URL is `prefix` followed by its
/// title, the day is that of its last edit, and the summary is rendered with
/// internal links under `prefix`.
pub open spec fn summarizes(s: PageSummary, info: PageInfo, prefix: Seq<char>) -> bool {
    &&& s.url@ == prefix + info.title@
    &&& s.title@ == info.title@
    &&& utc_date_of(info.updated_at as int) == Some(s.updated_at@)
    &&& match info.summary {
        Some(markdown) => s.summary matches Some(html) && html@ == markdown_html(
            preprocessed(markdown@, prefix),
        ),
        None => s.summary is None,
    }
}

/// How a list shows the page `info` (see [`summarizes`]); none where the day
/// of its last edit cannot be written.
pub fn summarize(info: &PageInfo, prefix: &str) -> (r: Option<PageSummary>)
    ensures
        match r {
            Some(s) => summarizes(s, *info, prefix@),
            None => utc_date_of(info.updated_at as int) is None,
        },
{
    let updated_at = match format_utc_day(info.updated_at) {
        Some(day) => day,
        None => {
            return None;
        },
    };
    let mut url = prefix.to_owned();
    url.append(info.title.as_str());
    let summary = match &info.summary {
        Some(markdown) => match markdown2html(markdown.as_str(), prefix) {
            Ok(html) => Some(html),
            Err(_) => None,
        },
        None => None,
    };
    Some(PageSummary { url, title: info.title.clone(), updated_at, summary })
}

/// How a list shows each of the pages `infos`, in order (see [`summarizes`]);
/// none where the day of a page's last edit cannot be written.
pub fn summarize_all(infos: &Vec<PageInfo>, prefix: &str) -> (r: Option<Vec<PageSummary>>)
    ensures
        match r {
            Some(list) => list.len() == infos.len() && forall|i: int|
                0 <= i < infos.len() ==> summarizes(#[trigger] list@[i], infos@[i], prefix@),
            None => exists|i: int|
                0 <= i < infos.len() && (utc_date_of(#[trigger] infos@[i].updated_at as int) is None),
        },
{
    let mut list: Vec<PageSummary> = Vec::new();
    let mut i: usize = 0;
    while i < infos.len()
        invariant
            i <= infos.len(),
            list.len() == i,
            forall|q: int| 0 <= q < i ==> summarizes(#[trigger] list@[q], infos@[q], prefix@),
        decreases infos.len() - i,
    {
        match summarize(&infos[i], prefix) {
            Some(s) => {
                list.push(s);
            },
            None => {
                assert(utc_date_of(infos@[i as int].updated_at as int) is None);
                return None;
            },
        }
        i = i + 1;
    }
    Some(list)
}

} // verus!
