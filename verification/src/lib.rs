//! Content-addressed storage with encryption at rest.

pub mod complete;
pub mod crypto;
pub mod encrypted;
pub mod identity;
pub mod index;
pub mod parts;
pub mod persistent;
pub mod store;
pub mod text;
pub mod types;
pub mod upload;
pub mod verified;
