//! Logging in.

use vstd::prelude::*;
use crate::error::{KBError, KBResult};
use crate::utils::{flash_redirect, plain_redirect, see_other, see_other_with, FlashLevel, Redirect};

verus! {

/// The query of the login form: where to go once logged in, if anywhere.
#[derive(Debug)]
pub struct Info {
    pub redirect: Option<String>,
}

/// The login form as it was sent.
#[derive(Debug)]
pub struct FormData {
    pub username: String,
    pub password: String,
}

/// Sends the user back to the login page with the message of `e`.
pub fn login_redirect(e: KBError) -> (r: Redirect)
    ensures
        flash_redirect(r, "/login"@, FlashLevel::Error, e.message()),
{
    let message = e.to_string();
    see_other_with("/login", FlashLevel::Error, message.as_str())
}

/// What a login answers once the credentials have been checked
/// (`validation`): the id of the user to keep in the session, or, where the
/// check failed, the way back to the login page with the reason.
pub fn login_outcome(validation: KBResult<u128>) -> (r: Result<u128, Redirect>)
    ensures
        match validation {
            Ok(id) => r == Ok::<u128, Redirect>(id),
            Err(e) => r matches Err(back) && flash_redirect(
                back,
                "/login"@,
                FlashLevel::Error,
                e.message(),
            ),
        },
{
    match validation {
        Ok(id) => Ok(id),
        Err(e) => Err(login_redirect(e)),
    }
}

/// Where a user goes once logged in: the admin dashboard.
pub fn login_succeeded() -> (r: Redirect)
    ensures
        plain_redirect(r, "/admin"@),
{
    see_other("/admin")
}

} // verus!
