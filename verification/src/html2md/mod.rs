//! Converting an HTML document to Markdown lines.

pub mod tree;
pub mod markdown;
pub mod laws;
