//! Turning away requests of users who have not logged in.

use vstd::prelude::*;

verus! {

/// The id of the user who has logged in.
#[derive(Clone, Copy, Debug)]
pub struct UserId(pub u128);

/// Lets a request of a logged-in user (`user_id`) through, with the user's
/// id; a request of anyone else is answered with the location to redirect
/// to: the login page.
pub fn reject_anonymous_users(user_id: Option<u128>) -> (r: Result<UserId, String>)
    ensures
        match user_id {
            Some(id) => r matches Ok(u) && u.0 == id,
            None => r matches Err(location) && location@ == "/login"@,
        },
{
    match user_id {
        Some(id) => Ok(UserId(id)),
        None => Err("/login".to_owned()),
    }
}

} // verus!
