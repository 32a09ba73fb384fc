//! The key formats of the supported engines.

pub mod gpg;
