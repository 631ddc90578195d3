//! Builds a personal profile page from a directory of content documents: the
//! date keys and sort engine that order items, the loader that checks and
//! arranges the content tree, and the renderer of inline links in free text.

pub mod date;
pub mod format;
pub mod items;
pub mod links;
pub mod load;
pub mod model;
pub mod output;
pub mod sort;
pub mod text;
