//! Request authentication, access-token claims, configuration lookup and
//! user-store decisions of an attestation service.
#![allow(non_camel_case_types)]

pub mod auth;
pub mod clock;
pub mod config;
pub mod keypath;
pub mod server;
pub mod text;
pub mod token;
pub mod user;
