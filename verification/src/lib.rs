//! Course catalogue scraping and search planning, verified with Verus.

pub mod catalog;
pub mod cli;
pub mod command;
pub mod dom;
pub mod extractor;
pub mod model;
pub mod number;
pub mod text;

