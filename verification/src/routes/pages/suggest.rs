//! Suggesting page titles while a title is typed.

use vstd::prelude::*;

verus! {

/// The beginning of a title, as typed so far.
#[derive(Debug)]
pub struct Info {
    pub value: String,
}

/// A page that a suggestion points to.
#[derive(Debug)]
pub struct Suggestion {
    pub id: i32,
    pub title: String,
}

/// What the suggestion list shows.
#[derive(Debug)]
pub struct Suggestions {
    pub suggestions: Vec<Suggestion>,
}

/// The SQL `ILIKE` pattern of the titles that begin with what was typed: the
/// value followed by `%`.
pub fn suggestion_pattern(form: &Info) -> (r: String)
    ensures
        r@ == form.value@.push('%'),
{
    let mut pattern = form.value.clone();
    pattern.push('%');
    pattern
}

} // verus!
