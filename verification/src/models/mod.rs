pub mod account;
pub mod book;
