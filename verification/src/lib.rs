//! Core of an anonymous offline messenger: identities, end-to-end session
//! keys, authenticated encryption and the membership of a local network.
pub mod crypto;
pub mod error;
pub mod identity;
pub mod network;
mod random;
mod text;

pub use error::Error;
