//! How objects are moved.

pub mod input;
