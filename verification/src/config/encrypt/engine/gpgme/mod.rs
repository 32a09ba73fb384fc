//! What the GPGME engine hands over, as plain values.

pub mod gpg;
