//! The admin dashboard.

use vstd::prelude::*;
use crate::utils::{plain_redirect, see_other, Redirect};

verus! {

/// What the dashboard shows: whose it is.
#[derive(Debug)]
pub struct AdminDashboard {
    pub username: String,
}

/// Who may see the dashboard: the logged-in user (`user_id`); anyone else is
/// sent to the login page.
pub fn dashboard_access(user_id: Option<u128>) -> (r: Result<u128, Redirect>)
    ensures
        match user_id {
            Some(id) => r == Ok::<u128, Redirect>(id),
            None => r matches Err(back) && plain_redirect(back, "/login"@),
        },
{
    match user_id {
        Some(id) => Ok(id),
        None => Err(see_other("/login")),
    }
}

} // verus!
