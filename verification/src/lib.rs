//! Finitely presented categories and the discrete double theories built on them.

pub mod dbl;
pub mod one;
pub mod stdlib;
pub mod symbol;
