//! The chunker: fusing word-boundary tokens into unbreakable chunks.
//!
//! A chunk is a maximal run of consecutive tokens that the merge rules keep
//! together; a line break may later be placed only between chunks.  The
//! chunker walks the tokens once, keeping an in-progress chunk and a
//! two-character lookback that spans token boundaries, and for each token
//! either fuses it onto the in-progress chunk or flushes that chunk and
//! starts a new one.

use vstd::prelude::*;
use vstd::string::{StrSliceExecFns, StringExecFns};

use crate::classes::{
    all_mergeable, is_line_break, is_mergeable, is_open_parenthesis, is_punctuation,
    is_whitespace_char, po_line_break, po_open_paren, po_punctuation, unicode_whitespace,
};
use crate::segment::{split_word_bounds, word_bounds_of};

verus! {

/// The chunker's running state: the finished chunks, the in-progress chunk,
/// and the two-character lookback.  `last` is the character at which the
/// merge rules evaluate the next token; `second` is its companion in the
/// backslash-pair guard.  How the pair is refilled after each token is part
/// of gettext's historical behaviour and is kept exactly (see `chunk_step`).
pub struct ChunkState {
    pub chunks: Seq<Seq<char>>,
    pub buf: Seq<char>,
    pub last: Option<char>,
    pub second: Option<char>,
}

/// The state before any token has been seen.
pub open spec fn initial_chunk_state() -> ChunkState {
    ChunkState { chunks: Seq::empty(), buf: Seq::empty(), last: None, second: None }
}

/// Whether a token is fused onto the in-progress chunk.  It is when a
/// preceding character exists, the two most recent characters are not both
/// backslash (so an escaped backslash is never destabilised), and the token
/// is either wholly mergeable or attaches by the punctuation rules: it does
/// not start with an opening bracket, the preceding character is not a
/// line-break character, and either the preceding character is ASCII
/// punctuation or the token starts with ASCII punctuation right after a
/// non-whitespace character.
pub open spec fn merge_eligible(last: Option<char>, second: Option<char>, tok: Seq<char>) -> bool
    recommends
        tok.len() > 0,
{
    &&& last is Some
    &&& !(second is Some && last.unwrap() == '\\' && second.unwrap() == '\\')
    &&& (all_mergeable(tok) || (!po_open_paren(tok[0]) && !po_line_break(last.unwrap()) && (
    po_punctuation(last.unwrap()) || (po_punctuation(tok[0]) && !unicode_whitespace(
        last.unwrap(),
    )))))
}

/// One step of the chunker on a non-empty token.  On a merge the token is
/// appended to the in-progress chunk; otherwise the chunk (if non-empty) is
/// flushed and the token starts a new one.  The lookback is then refilled
/// from the token: a token of two or more characters puts its second-to-last
/// character into `last` and its last into `second`, while a one-character
/// token puts that character into `last` and keeps the previous `last` as
/// `second` when it was merged, and nothing otherwise.  This refill is the
/// fixed historical behaviour being reproduced, not a redesign.
pub open spec fn chunk_step(st: ChunkState, tok: Seq<char>) -> ChunkState
    recommends
        tok.len() > 0,
{
    let merged = merge_eligible(st.last, st.second, tok);
    let chunks = if merged {
        st.chunks
    } else if st.buf.len() > 0 {
        st.chunks.push(st.buf)
    } else {
        st.chunks
    };
    let buf = if merged {
        st.buf + tok
    } else {
        tok
    };
    let fallback = if merged {
        st.last
    } else {
        None
    };
    if tok.len() >= 2 {
        ChunkState {
            chunks,
            buf,
            last: Some(tok[tok.len() - 2]),
            second: Some(tok[tok.len() - 1]),
        }
    } else {
        ChunkState { chunks, buf, last: Some(tok[0]), second: fallback }
    }
}

/// The chunker's state after consuming a token sequence, front to back.
pub open spec fn chunk_fold(toks: Seq<Seq<char>>, st: ChunkState) -> ChunkState
    decreases toks.len(),
{
    if toks.len() == 0 {
        st
    } else {
        chunk_fold(toks.drop_first(), chunk_step(st, toks.first()))
    }
}

/// The chunks of a token sequence: fold over the tokens, then flush the
/// in-progress chunk if it is non-empty.
pub open spec fn chunks_of_tokens(toks: Seq<Seq<char>>) -> Seq<Seq<char>> {
    let st = chunk_fold(toks, initial_chunk_state());
    if st.buf.len() > 0 {
        st.chunks.push(st.buf)
    } else {
        st.chunks
    }
}

/// The chunks of a text: its word-boundary tokens, fused by the merge rules.
pub open spec fn po_chunks(text: Seq<char>) -> Seq<Seq<char>> {
    chunks_of_tokens(word_bounds_of(text))
}

/// Folding one more token is one step on the fold of the tokens before it.
proof fn lemma_chunk_fold_snoc(toks: Seq<Seq<char>>, st: ChunkState, tok: Seq<char>)
    ensures
        chunk_fold(toks.push(tok), st) == chunk_step(chunk_fold(toks, st), tok),
    decreases toks.len(),
{
    if toks.len() == 0 {
        assert(toks.push(tok).drop_first() =~= Seq::<Seq<char>>::empty());
    } else {
        assert(toks.push(tok).drop_first() =~= toks.drop_first().push(tok));
        assert(toks.push(tok).first() == toks.first());
        lemma_chunk_fold_snoc(toks.drop_first(), chunk_step(st, toks.first()), tok);
    }
}

/// A sequence of non-empty segments whose concatenation is empty is itself
/// empty.
pub proof fn lemma_flatten_empty(s: Seq<Seq<char>>)
    requires
        forall|i: int| 0 <= i < s.len() ==> #[trigger] s[i].len() > 0,
        s.flatten().len() == 0,
    ensures
        s.len() == 0,
{
    if s.len() > 0 {
        assert(s.flatten() == s.first() + s.drop_first().flatten());
        assert(s[0].len() > 0);
    }
}

/// Split a text into chunks: word-boundary tokens fused by the PO merge
/// rules.  The chunks are non-empty and concatenate back to the text, and
/// are exactly the chunks of the spec-level fold.
pub fn split_po_chunks(text: &str) -> (r: Vec<String>)
    ensures
        r.deep_view() == po_chunks(text@),
        r.deep_view().flatten() == text@,
        forall|i: int| 0 <= i < r.deep_view().len() ==> #[trigger] r.deep_view()[i].len() > 0,
{
    let tokens = split_word_bounds(text);
    let ghost toks = word_bounds_of(text@);
    let mut chunks: Vec<String> = Vec::new();
    let mut last_char: Option<char> = None;
    let mut second_last_char: Option<char> = None;
    let mut last_chunk = String::new();
    let mut idx: usize = 0;
    while idx < tokens.len()
        invariant
            tokens.deep_view() == toks,
            toks.flatten() == text@,
            forall|i: int| 0 <= i < toks.len() ==> #[trigger] toks[i].len() > 0,
            idx <= tokens@.len(),
            chunks.deep_view() == chunk_fold(toks.take(idx as int), initial_chunk_state()).chunks,
            last_chunk@ == chunk_fold(toks.take(idx as int), initial_chunk_state()).buf,
            last_char == chunk_fold(toks.take(idx as int), initial_chunk_state()).last,
            second_last_char == chunk_fold(toks.take(idx as int), initial_chunk_state()).second,
            chunk_fold(toks.take(idx as int), initial_chunk_state()).chunks.flatten()
                + chunk_fold(toks.take(idx as int), initial_chunk_state()).buf == toks.take(
                idx as int,
            ).flatten(),
            forall|i: int|
                0 <= i < chunk_fold(toks.take(idx as int), initial_chunk_state()).chunks.len()
                    ==> #[trigger] chunk_fold(
                    toks.take(idx as int),
                    initial_chunk_state(),
                ).chunks[i].len() > 0,
            idx > 0 ==> chunk_fold(toks.take(idx as int), initial_chunk_state()).buf.len() > 0,
        decreases tokens@.len() - idx,
    {
        let ghost st = chunk_fold(toks.take(idx as int), initial_chunk_state());
        let tok: &String = &tokens[idx];
        proof {
            assert(toks[idx as int] == tokens.deep_view()[idx as int]);
            assert(tok@ == toks[idx as int]);
            assert(toks[idx as int].len() > 0);
        }
        let should_merge: bool = match last_char {
            None => false,
            Some(lc) => {
                let both_backslash = match second_last_char {
                    Some(sc) => lc == '\\' && sc == '\\',
                    None => false,
                };
                if both_backslash {
                    false
                } else if is_mergeable(tok.as_str()) {
                    true
                } else {
                    let first = tok.as_str().get_char(0);
                    !is_open_parenthesis(&first) && !is_line_break(&lc) && (is_punctuation(&lc)
                        || (is_punctuation(&first) && !is_whitespace_char(&lc)))
                }
            },
        };
        assert(should_merge == merge_eligible(st.last, st.second, tok@));
        if !should_merge {
            if !last_chunk.as_str().is_empty() {
                chunks.push(last_chunk);
                last_chunk = String::new();
            }
        }
        let fallback: Option<char> = if should_merge {
            last_char
        } else {
            None
        };
        last_chunk.append(tok.as_str());
        let tok_len = tok.as_str().unicode_len();
        if tok_len >= 2 {
            last_char = Some(tok.as_str().get_char(tok_len - 2));
            second_last_char = Some(tok.as_str().get_char(tok_len - 1));
        } else {
            second_last_char = fallback;
            last_char = Some(tok.as_str().get_char(0));
        }
        proof {
            let stepped = chunk_step(st, toks[idx as int]);
            lemma_chunk_fold_snoc(toks.take(idx as int), initial_chunk_state(), toks[idx as int]);
            assert(toks.take(idx as int + 1) =~= toks.take(idx as int).push(toks[idx as int]));
            assert(chunk_fold(toks.take(idx as int + 1), initial_chunk_state()) == stepped);
            assert(chunks.deep_view() =~= stepped.chunks);
            if should_merge {
                assert(last_chunk@ == st.buf + toks[idx as int]);
            } else {
                assert(last_chunk@ =~= toks[idx as int]);
            }
            if st.buf.len() > 0 && !should_merge {
                st.chunks.lemma_flatten_push(st.buf);
            }
            assert(stepped.chunks.flatten() + stepped.buf =~= toks.take(idx as int + 1).flatten())
                by {
                toks.take(idx as int).lemma_flatten_push(toks[idx as int]);
                assert(toks.take(idx as int + 1).flatten() =~= toks.take(idx as int).flatten()
                    + toks[idx as int]);
            }
        }
        idx = idx + 1;
    }
    proof {
        assert(toks.take(idx as int) =~= toks);
    }
    let ghost st = chunk_fold(toks, initial_chunk_state());
    if !last_chunk.as_str().is_empty() {
        chunks.push(last_chunk);
        proof {
            st.chunks.lemma_flatten_push(st.buf);
            assert(chunks.deep_view() =~= st.chunks.push(st.buf));
        }
    }
    chunks
}

} // verus!
