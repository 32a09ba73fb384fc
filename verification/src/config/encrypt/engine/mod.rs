//! What the engines hand over, as plain values.

pub mod gpgme;
