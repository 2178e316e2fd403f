//! Segmentation and display-width providers.
//!
//! The splitting of text into grapheme clusters, word-boundary tokens and
//! sentences, and the measurement of display width, follow the Unicode
//! standards; their exact results are functions of the input characters alone
//! and are named by uninterpreted spec functions here.  The wrappers state
//! what the providers document: tokens are non-empty, the token sequences of
//! the partitioning operations concatenate back to the input, and offsets are
//! byte offsets.

use unicode_segmentation::UnicodeSegmentation;
use unicode_width::UnicodeWidthStr;
use vstd::prelude::*;
use vstd::utf8::encode_utf8;

verus! {

/// The grapheme clusters of a text, under extended or legacy rules.
pub uninterp spec fn grapheme_clusters_of(text: Seq<char>, is_extended: bool) -> Seq<Seq<char>>;

/// The word-boundary tokens of a text.
pub uninterp spec fn word_bounds_of(text: Seq<char>) -> Seq<Seq<char>>;

/// The sentence-boundary segments of a text.
pub uninterp spec fn sentence_bounds_of(text: Seq<char>) -> Seq<Seq<char>>;

/// Whether a character is alphanumeric: it has the Unicode `Alphabetic`
/// property or general category `Number`.
pub uninterp spec fn alphanumeric_char(c: char) -> bool;

/// The display width of a text in terminal columns.
pub uninterp spec fn width_of(text: Seq<char>) -> nat;

/// A token holds at least one alphanumeric character.
pub open spec fn contains_alphanumeric(t: Seq<char>) -> bool {
    exists|i: int| 0 <= i < t.len() && alphanumeric_char(#[trigger] t[i])
}

/// The byte offset of the `i`-th segment of a partition of a text: the length
/// of the UTF-8 encoding of the segments before it.
pub open spec fn byte_offset_of(segments: Seq<Seq<char>>, i: int) -> nat {
    encode_utf8(segments.take(i).flatten()).len()
}

/// Split a string into grapheme clusters.
///
/// Relies on unicode_segmentation's `graphemes`: the clusters are non-empty
/// and concatenate back to the input.
#[verifier::external_body]
pub fn graphemes(text: &str, is_extended: bool) -> (r: Vec<String>)
    ensures
        r.deep_view() == grapheme_clusters_of(text@, is_extended),
        r.deep_view().flatten() == text@,
        forall|i: int| 0 <= i < r.deep_view().len() ==> #[trigger] r.deep_view()[i].len() > 0,
{
    text.graphemes(is_extended).map(|s| s.to_string()).collect()
}

/// Split a string into grapheme clusters with their byte offsets.
///
/// Relies on unicode_segmentation's `grapheme_indices`: the substrings are
/// the grapheme clusters and each offset is the byte offset of its cluster
/// in the input.
#[verifier::external_body]
pub fn grapheme_indices(text: &str, is_extended: bool) -> (r: Vec<(usize, String)>)
    ensures
        r@.len() == grapheme_clusters_of(text@, is_extended).len(),
        forall|i: int|
            0 <= i < r@.len() ==> (#[trigger] r@[i]).1@ == grapheme_clusters_of(
                text@,
                is_extended,
            )[i] && r@[i].0 as nat == byte_offset_of(grapheme_clusters_of(text@, is_extended), i),
{
    text.grapheme_indices(is_extended).map(|(i, s)| (i, s.to_string())).collect()
}

/// Split a string at word boundaries; the tokens include punctuation and
/// whitespace.
///
/// Relies on unicode_segmentation's `split_word_bounds`: the tokens are
/// non-empty and concatenate back to the input.
#[verifier::external_body]
pub fn split_word_bounds(text: &str) -> (r: Vec<String>)
    ensures
        r.deep_view() == word_bounds_of(text@),
        r.deep_view().flatten() == text@,
        forall|i: int| 0 <= i < r.deep_view().len() ==> #[trigger] r.deep_view()[i].len() > 0,
{
    text.split_word_bounds().map(|s| s.to_string()).collect()
}

/// Split a string at word boundaries, with the byte offset of each token.
///
/// Relies on unicode_segmentation's `split_word_bound_indices`: the
/// substrings are the word-boundary tokens and each offset is the byte
/// offset of its token in the input.
#[verifier::external_body]
pub fn split_word_bound_indices(text: &str) -> (r: Vec<(usize, String)>)
    ensures
        r@.len() == word_bounds_of(text@).len(),
        forall|i: int|
            0 <= i < r@.len() ==> (#[trigger] r@[i]).1@ == word_bounds_of(text@)[i] && r@[i].0
                as nat == byte_offset_of(word_bounds_of(text@), i),
{
    text.split_word_bound_indices().map(|(i, s)| (i, s.to_string())).collect()
}

/// The words of a string: the word-boundary tokens that hold at least one
/// alphanumeric character.
///
/// Relies on unicode_segmentation's `unicode_words`, which filters
/// `split_word_bounds` by exactly that test.
#[verifier::external_body]
pub fn unicode_words(text: &str) -> (r: Vec<String>)
    ensures
        r.deep_view() == word_bounds_of(text@).filter(|t: Seq<char>| contains_alphanumeric(t)),
        forall|i: int|
            0 <= i < r.deep_view().len() ==> exists|j: int|
                0 <= j < (#[trigger] r.deep_view()[i]).len() && alphanumeric_char(
                    #[trigger] r.deep_view()[i][j],
                ),
{
    text.unicode_words().map(|s| s.to_string()).collect()
}

/// The sentences of a string: the sentence-boundary segments that hold at
/// least one alphanumeric character.
///
/// Relies on unicode_segmentation's `unicode_sentences`, which filters the
/// sentence-boundary segments by exactly that test.
#[verifier::external_body]
pub fn unicode_sentences(text: &str) -> (r: Vec<String>)
    ensures
        r.deep_view() == sentence_bounds_of(text@).filter(|t: Seq<char>| contains_alphanumeric(t)),
        forall|i: int|
            0 <= i < r.deep_view().len() ==> contains_alphanumeric(#[trigger] r.deep_view()[i]),
        forall|i: int| 0 <= i < r.deep_view().len() ==> #[trigger] r.deep_view()[i].len() > 0,
{
    text.unicode_sentences().map(|s| s.to_string()).collect()
}

/// The display width of a string in terminal columns.
///
/// Relies on unicode_width's `UnicodeWidthStr::width`: the width depends on
/// the characters alone.
#[verifier::external_body]
pub fn text_width(text: &str) -> (r: usize)
    ensures
        r as nat == width_of(text@),
{
    UnicodeWidthStr::width(text)
}

} // verus!
