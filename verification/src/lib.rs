//! Computes the `X-Bogus` signature that the Douyin web API expects on a
//! query string, and the decisions of the crawler that uses it.

pub mod outside;
pub mod hex;
pub mod latin1;
pub mod encoding;
pub mod xbogus;
pub mod douyin;
pub use xbogus::generate_xb;
pub mod signature;
