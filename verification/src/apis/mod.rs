pub mod download;
pub mod login;
pub mod search;
