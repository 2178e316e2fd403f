//! Unicode-aware text segmentation, terminal display-width measurement, and
//! the line-wrapping convention of gettext PO files.
//!
//! The core is [`gettext_wrap`]: it splits a string into unbreakable chunks
//! (word-boundary tokens fused by PO-specific merge rules) and greedily packs
//! the chunks into lines no wider than a target column count.

use vstd::prelude::*;

pub mod chunker;
pub mod classes;
pub mod segment;
pub mod wrap;

pub use chunker::split_po_chunks;
pub use segment::{
    grapheme_indices, graphemes, split_word_bound_indices, split_word_bounds, text_width,
    unicode_sentences, unicode_words,
};
pub use wrap::{gettext_wrap, wrap_po_chunks};
