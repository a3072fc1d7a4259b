//! Double theories.

pub mod theory;
