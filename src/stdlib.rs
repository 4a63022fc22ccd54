//! The language's standard library containers.

pub mod list;
pub mod option;
pub mod result;
