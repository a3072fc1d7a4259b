//! Categories in one dimension.

pub mod fin_category;
pub mod history;
pub mod presentation;
