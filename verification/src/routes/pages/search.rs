//! Searching pages.

use vstd::prelude::*;
use crate::routes::pages::{summarize_all, summarizes, utc_date_of, PageInfo, PageSummary};

verus! {

/// The query of a search: a pattern matched against titles and contents.
#[derive(Debug)]
pub struct Info {
    pub value: String,
}

/// What the search view shows: the query and the pages found.
#[derive(Debug)]
pub struct SearchResults {
    pub query: String,
    pub results: Vec<PageSummary>,
}

impl SearchResults {
    /// The search view for `query` and the pages `found`, whose links lead
    /// under `pages/`; none where the day of a page's last edit cannot be written.
    pub fn new(query: &str, found: &Vec<PageInfo>) -> (r: Option<SearchResults>)
        ensures
            match r {
                Some(view) => {
                    &&& view.query@ == query@
                    &&& view.results.len() == found.len()
                    &&& forall|i: int|
                        0 <= i < found.len() ==> summarizes(
                            #[trigger] view.results@[i],
                            found@[i],
                            "pages/"@,
                        )
                },
                None => exists|i: int|
                    0 <= i < found.len() && (utc_date_of(#[trigger] found@[i].updated_at as int) is None),
            },
    {
        match summarize_all(found, "pages/") {
            Some(results) => Some(SearchResults { query: query.to_owned(), results }),
            None => None,
        }
    }
}

} // verus!
