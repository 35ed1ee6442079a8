//! Renders a directory tree model into a single Markdown document: an ASCII
//! tree of the hierarchy followed by fenced code blocks with each included
//! file's text. The traversal, the exclusion rules and the safe code-fencing
//! are verified; filesystem reading and argument handling live outside the
//! library and hand it a plain in-memory model.

pub mod classify;
pub mod fence;
pub mod ignorefile;
pub mod model;
pub mod policy;
pub mod render;
pub mod text;

pub use model::Node;
