//! The core of a Z-Library client: the rules by which requests are built, responses are
//! followed, challenges are solved and accounts are rotated. Nothing here touches the
//! network, the disk or the clock.

pub mod account;
pub mod apis;
pub mod client;
pub mod ffi;
pub mod form;
pub mod headers;
pub mod json;
pub mod link;
pub mod models;
pub mod number;
pub mod pattern;
pub mod text;
