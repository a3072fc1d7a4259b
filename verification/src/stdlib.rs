//! Standard library of double theories.

pub mod theories;
