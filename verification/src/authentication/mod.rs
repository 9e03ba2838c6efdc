//! Who the user is: checking credentials, hashing passwords, and turning
//! away requests of users who have not logged in.

pub mod middleware;
pub mod passwords;

pub use middleware::{reject_anonymous_users, UserId};
pub use passwords::{compute_password_hash, validate_credentials, verify_password_hash, Credentials};
