//! The encryption section of the configuration.

pub mod configuration;
