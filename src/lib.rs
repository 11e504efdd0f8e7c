//! Authentication, authorization and key-envelope core of an end-to-end
//! encrypted password manager.

pub mod data;
pub mod error;
pub mod suite;
pub mod uuid;
pub mod acl;
pub mod cipher;
pub mod users;
pub mod api;
pub mod auth;
pub mod envelope;
pub mod client;
pub mod mediator;
