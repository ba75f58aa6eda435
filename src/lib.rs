//! Supervision of a single external helper process launched from a batch template.

pub mod error;
pub mod listing;
pub mod runner;
pub mod template;
pub mod text;

pub use error::{err_to_str, Error};
