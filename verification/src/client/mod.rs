pub mod challenge;
pub mod cookies;
pub mod ip;
pub mod sni;
