//! Rendering of tokenized source code as line-numbered, syntax-highlighted
//! markup.
//!
//! A tokenizer hands over, for each line of source, a sequence of token
//! events: a span of some category opens, text follows, the span closes.
//! [`render::render`] walks the events, looks each category up in a
//! [`style::StyleTable`] and writes one container that holds the numbered
//! lines, each piece of text escaped and every span painted in its colour.
//! Events that do not nest, and categories without a colour, are mended and
//! reported as [`diagnostic::Diagnostic`]s; a rendering never fails.
//!
//! [`snippet::generate_snippet`] goes from formatted Rust source to markup,
//! with the `synoptic` crate's tokenizer for Rust and the built-in colours.
//!
//! What is proved of every rendering stands in the functions' contracts and
//! in [`laws`]: the tags of the markup nest, the lines are numbered from zero
//! without a gap, and the text that the markup shows is the text of the
//! events, recovered by un-escaping.

pub mod diagnostic;
pub mod escape;
pub mod gutter;
pub mod laws;
pub mod markup;
pub mod render;
pub mod snippet;
pub mod style;
pub mod token;
pub mod tokenizer;
