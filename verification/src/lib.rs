//! Extracts inline links from a markdown document and rebuilds them as a
//! block of reference-style link definitions.
//!
//! The core is a fold over the tokenizer's inline events: it accumulates a
//! table of link records keyed by URL, concatenating the text fragments seen
//! inside each link span, resolving repeated link-starts for one URL, and
//! failing fast on a title conflict or an unterminated link.

pub mod events;
pub mod fold;
pub mod laws;
pub mod links;
pub mod refdef;
pub mod render;

