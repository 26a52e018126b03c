//! Turns flat, dot-qualified element lists of structure definitions into
//! class diagrams, mind-map outlines and markdown tables.
//!
//! - [`json`]: the structured value that a definition file holds.
//! - [`model`]: documents and elements, and how they are read from values.
//! - [`hierarchy`]: depth, local name and relation classification.
//! - [`numbering`]: dotted sibling codes.
//! - [`naming`]: labels from camel-case names.
//! - [`render`]: the diagram, outline and table texts.
//! - [`laws`]: properties that tie these together.

pub mod hierarchy;
pub mod json;
pub mod laws;
pub mod model;
pub mod naming;
pub mod numbering;
pub mod render;
pub mod text;
