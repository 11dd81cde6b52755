//! A template-interpolation and value-pretty-printing engine.
//!
//! A template string holds literal text and `{...}` placeholders; each
//! placeholder may carry a format directive after a colon.  Callers pass one
//! argument per placeholder, already rendered to its textual forms; the
//! engine parses the template, resolves each directive, re-indents nested
//! bracketed debug text where asked, and reassembles everything in source
//! order.

pub mod chars;
pub mod pretty;
pub mod render;
pub mod numeric;
pub mod template;
