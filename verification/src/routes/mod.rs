//! What the web routes of the knowledge base decide, apart from reading and
//! writing the database and the session.

pub mod admin;
pub mod home;
pub mod login;
pub mod pages;
