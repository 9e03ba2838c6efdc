//! The home page: the pages edited last.

use vstd::prelude::*;
use crate::routes::pages::{summarize_all, summarizes, utc_date_of, PageInfo, PageSummary};

verus! {

/// What the home page shows: the pages edited last.
#[derive(Debug)]
pub struct HomePage {
    pub recently_edited: Vec<PageSummary>,
}

impl HomePage {
    /// The home page for the pages `recent`, in order, whose links lead under
    /// `pages/`; none where the day of a page's last edit cannot be written.
    pub fn new(recent: &Vec<PageInfo>) -> (r: Option<HomePage>)
        ensures
            match r {
                Some(home) => home.recently_edited.len() == recent.len() && forall|i: int|
                    0 <= i < recent.len() ==> summarizes(
                        #[trigger] home.recently_edited@[i],
                        recent@[i],
                        "pages/"@,
                    ),
                None => exists|i: int|
                    0 <= i < recent.len() && (utc_date_of(#[trigger] recent@[i].updated_at as int) is None),
            },
    {
        match summarize_all(recent, "pages/") {
            Some(recently_edited) => Some(HomePage { recently_edited }),
            None => None,
        }
    }
}

} // verus!
