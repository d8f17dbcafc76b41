//! Helpers that the rest of the library shares.

pub mod timeout;
