//! The admin area: the dashboard and the change of password.

pub mod dashboard;
pub mod password;
