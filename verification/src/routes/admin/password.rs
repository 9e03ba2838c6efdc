//! Changing the password of the logged-in user.

use vstd::prelude::*;
use crate::error::{KBError, KBResult};
use crate::utils::{flash_redirect, plain_redirect, see_other, see_other_with, FlashLevel, Redirect};

verus! {

/// The form that changes a password, as it was sent.
#[derive(Debug)]
pub struct FormData {
    pub current_password: String,
    pub new_password: String,
    pub new_password_check: String,
}

/// The next step of a change of password.
#[derive(Debug)]
pub enum PasswordChange {
    /// Go on, for the user with this id.
    Proceed(u128),
    /// Stop, and answer with this redirect.
    Answer(Redirect),
    /// Stop, and answer with this error.
    Fail(KBError),
}

/// Where the form of the change of password is.
pub open spec fn password_form_location() -> Seq<char> {
    "/admin/password"@
}

/// The first step of a change of password: a user who has not logged in is
/// sent to the login page; where the two new passwords differ, the user is
/// sent back to the form and told so; otherwise the change goes on.
pub fn check_password_form(user_id: Option<u128>, form: &FormData) -> (r: PasswordChange)
    ensures
        match user_id {
            None => r matches PasswordChange::Answer(back) && plain_redirect(back, "/login"@),
            Some(id) => if form.new_password@ != form.new_password_check@ {
                r matches PasswordChange::Answer(back) && flash_redirect(
                    back,
                    password_form_location(),
                    FlashLevel::Error,
                    "You entered two different new passwords - the field values must match."@,
                )
            } else {
                r == PasswordChange::Proceed(id)
            },
        },
{
    match user_id {
        None => PasswordChange::Answer(see_other("/login")),
        Some(id) => {
            if form.new_password != form.new_password_check {
                PasswordChange::Answer(
                    see_other_with(
                        "/admin/password",
                        FlashLevel::Error,
                        "You entered two different new passwords - the field values must match.",
                    ),
                )
            } else {
                PasswordChange::Proceed(id)
            }
        },
    }
}

/// The second step, once the current password has been checked
/// (`validation`): a wrong current password sends the user back to the form
/// and says so; any other failure stops the change with that error;
/// otherwise the change goes on for `user_id`.
pub fn check_current_password(user_id: u128, validation: KBResult<u128>) -> (r: PasswordChange)
    ensures
        match validation {
            Ok(_) => r == PasswordChange::Proceed(user_id),
            Err(KBError::InvalidCredentials(_)) => r matches PasswordChange::Answer(back)
                && flash_redirect(
                back,
                password_form_location(),
                FlashLevel::Error,
                "The current password is incorrect."@,
            ),
            Err(e) => r == PasswordChange::Fail(e),
        },
{
    match validation {
        Ok(_) => PasswordChange::Proceed(user_id),
        Err(KBError::InvalidCredentials(_)) => PasswordChange::Answer(
            see_other_with("/admin/password", FlashLevel::Error, "The current password is incorrect."),
        ),
        Err(e) => PasswordChange::Fail(e),
    }
}

/// The last step, once the new password is stored: back to the form, with
/// the news.
pub fn password_changed() -> (r: Redirect)
    ensures
        flash_redirect(r, password_form_location(), FlashLevel::Info, "Your password has been changed."@),
{
    see_other_with("/admin/password", FlashLevel::Info, "Your password has been changed.")
}

} // verus!
