//! A content-addressed store for clippings: files are copied into a
//! directory under the digest of their bytes.

pub mod config;
pub mod digest;
pub mod error;
pub mod hex;
pub mod locate;
pub mod path;
pub mod recent;
pub mod store;
pub mod text;
