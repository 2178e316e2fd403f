//! The line packer and the top-level wrapping operation.
//!
//! The packer takes the chunk sequence and a target width and greedily packs
//! chunks into lines: a chunk joins the current line when the line's running
//! width plus the chunk's width still fits, and otherwise the line is emitted
//! and the chunk starts a new one.  A single chunk is never split, so a chunk
//! wider than the target stands on a line of its own.

use vstd::prelude::*;
use vstd::string::StringExecFns;

use crate::chunker::{lemma_flatten_empty, po_chunks, split_po_chunks};
use crate::segment::{text_width, width_of};

verus! {

/// The packer's running state: the emitted lines, each a sequence of chunks,
/// and the chunks of the line under construction.
pub struct PackState {
    pub lines: Seq<Seq<Seq<char>>>,
    pub cur: Seq<Seq<char>>,
}

/// The state before any chunk has been seen.
pub open spec fn initial_pack_state() -> PackState {
    PackState { lines: Seq::empty(), cur: Seq::empty() }
}

/// The running width of a line: the sum of the display widths of its chunks.
pub open spec fn sum_width(chunks: Seq<Seq<char>>) -> nat
    decreases chunks.len(),
{
    if chunks.len() == 0 {
        0
    } else {
        width_of(chunks.first()) + sum_width(chunks.drop_first())
    }
}

/// A line respects the target width unless it is a single chunk that is
/// itself too wide to fit.
pub open spec fn line_fits(line: Seq<Seq<char>>, width: nat) -> bool {
    sum_width(line) <= width || line.len() == 1
}

/// One step of the packer: append the chunk to the current line when it
/// fits, and otherwise emit the current line (if non-empty) and start a new
/// line with the chunk.
pub open spec fn pack_step(st: PackState, chunk: Seq<char>, width: nat) -> PackState {
    if sum_width(st.cur) + width_of(chunk) <= width {
        PackState { lines: st.lines, cur: st.cur.push(chunk) }
    } else {
        let lines = if st.cur.len() > 0 {
            st.lines.push(st.cur)
        } else {
            st.lines
        };
        PackState { lines, cur: seq![chunk] }
    }
}

/// The packer's state after consuming a chunk sequence, front to back.
pub open spec fn pack_fold(chunks: Seq<Seq<char>>, st: PackState, width: nat) -> PackState
    decreases chunks.len(),
{
    if chunks.len() == 0 {
        st
    } else {
        pack_fold(chunks.drop_first(), pack_step(st, chunks.first(), width), width)
    }
}

/// The lines packed from a chunk sequence: fold over the chunks, then emit
/// the line under construction if it is non-empty.
pub open spec fn po_pack(chunks: Seq<Seq<char>>, width: nat) -> Seq<Seq<Seq<char>>> {
    let st = pack_fold(chunks, initial_pack_state(), width);
    if st.cur.len() > 0 {
        st.lines.push(st.cur)
    } else {
        st.lines
    }
}

/// The wrapped lines of a text at a positive target width, each line the
/// concatenation of its chunks.
pub open spec fn po_lines(text: Seq<char>, width: nat) -> Seq<Seq<char>> {
    po_pack(po_chunks(text), width).map_values(|l: Seq<Seq<char>>| l.flatten())
}

/// Adding a chunk to a line adds its width to the line's running width.
proof fn lemma_sum_width_push(chunks: Seq<Seq<char>>, chunk: Seq<char>)
    ensures
        sum_width(chunks.push(chunk)) == sum_width(chunks) + width_of(chunk),
    decreases chunks.len(),
{
    if chunks.len() == 0 {
        assert(chunks.push(chunk).drop_first() =~= Seq::<Seq<char>>::empty());
        assert(chunks.push(chunk).first() == chunk);
        assert(sum_width(Seq::<Seq<char>>::empty()) == 0);
    } else {
        assert(chunks.push(chunk).drop_first() =~= chunks.drop_first().push(chunk));
        assert(chunks.push(chunk).first() == chunks.first());
        lemma_sum_width_push(chunks.drop_first(), chunk);
    }
}

/// Folding one more chunk is one step on the fold of the chunks before it.
proof fn lemma_pack_fold_snoc(chunks: Seq<Seq<char>>, st: PackState, chunk: Seq<char>, width: nat)
    ensures
        pack_fold(chunks.push(chunk), st, width) == pack_step(
            pack_fold(chunks, st, width),
            chunk,
            width,
        ),
    decreases chunks.len(),
{
    if chunks.len() == 0 {
        assert(chunks.push(chunk).drop_first() =~= Seq::<Seq<char>>::empty());
        assert(chunks.push(chunk).first() == chunk);
        assert(pack_fold(chunks.push(chunk), st, width) == pack_fold(
            Seq::<Seq<char>>::empty(),
            pack_step(st, chunk, width),
            width,
        ));
        assert(pack_fold(Seq::<Seq<char>>::empty(), pack_step(st, chunk, width), width)
            == pack_step(st, chunk, width));
        assert(pack_fold(chunks, st, width) == st);
    } else {
        assert(chunks.push(chunk).drop_first() =~= chunks.drop_first().push(chunk));
        assert(chunks.push(chunk).first() == chunks.first());
        assert(pack_fold(chunks.push(chunk), st, width) == pack_fold(
            chunks.drop_first().push(chunk),
            pack_step(st, chunks.first(), width),
            width,
        ));
        lemma_pack_fold_snoc(
            chunks.drop_first(),
            pack_step(st, chunks.first(), width),
            chunk,
            width,
        );
        assert(pack_fold(chunks, st, width) == pack_fold(
            chunks.drop_first(),
            pack_step(st, chunks.first(), width),
            width,
        ));
    }
}

/// Emitting one more line appends that line's concatenation to the sequence
/// of emitted line texts.
proof fn lemma_emit_line(lines: Seq<Seq<Seq<char>>>, cur: Seq<Seq<char>>)
    ensures
        lines.push(cur).map_values(|l: Seq<Seq<char>>| l.flatten()) =~= lines.map_values(
            (|l: Seq<Seq<char>>| l.flatten()),
        ).push(cur.flatten()),
        lines.push(cur).map_values(|l: Seq<Seq<char>>| l.flatten()).flatten() =~= lines.map_values(
            (|l: Seq<Seq<char>>| l.flatten()),
        ).flatten() + cur.flatten(),
{
    assert(lines.push(cur).map_values(|l: Seq<Seq<char>>| l.flatten()) =~= lines.map_values(
        (|l: Seq<Seq<char>>| l.flatten()),
    ).push(cur.flatten()));
    lines.map_values(|l: Seq<Seq<char>>| l.flatten()).lemma_flatten_push(cur.flatten());
}

/// Wrap a chunk sequence into lines no wider than `width`, greedily and
/// without ever splitting a chunk.  The result realises the spec-level
/// packing: each output line is the concatenation of one packed line's
/// chunks, the lines concatenate back to the chunks' own concatenation, and
/// every packed line fits the width unless it is a single over-wide chunk.
pub fn wrap_po_chunks(chunks: &Vec<String>, width: usize) -> (r: Vec<String>)
    requires
        forall|i: int|
            0 <= i < chunks.deep_view().len() ==> #[trigger] chunks.deep_view()[i].len() > 0,
    ensures
        r.deep_view() == po_pack(chunks.deep_view(), width as nat).map_values(
            (|l: Seq<Seq<char>>| l.flatten()),
        ),
        r.deep_view().flatten() == chunks.deep_view().flatten(),
        forall|i: int|
            0 <= i < po_pack(chunks.deep_view(), width as nat).len() ==> line_fits(
                #[trigger] po_pack(chunks.deep_view(), width as nat)[i],
                width as nat,
            ),
        forall|i: int| 0 <= i < r.deep_view().len() ==> #[trigger] r.deep_view()[i].len() > 0,
{
    let ghost cview = chunks.deep_view();
    let mut lines: Vec<String> = Vec::new();
    let mut current_line = String::new();
    let mut current_width: usize = 0;
    let mut idx: usize = 0;
    while idx < chunks.len()
        invariant
            cview == chunks.deep_view(),
            forall|i: int| 0 <= i < cview.len() ==> #[trigger] cview[i].len() > 0,
            idx <= chunks@.len(),
            lines.deep_view() == pack_fold(
                cview.take(idx as int),
                initial_pack_state(),
                width as nat,
            ).lines.map_values((|l: Seq<Seq<char>>| l.flatten())),
            current_line@ == pack_fold(
                cview.take(idx as int),
                initial_pack_state(),
                width as nat,
            ).cur.flatten(),
            current_width as nat == sum_width(
                pack_fold(cview.take(idx as int), initial_pack_state(), width as nat).cur,
            ),
            pack_fold(cview.take(idx as int), initial_pack_state(), width as nat).lines.map_values(
                (|l: Seq<Seq<char>>| l.flatten()),
            ).flatten() + current_line@ == cview.take(idx as int).flatten(),
            forall|i: int|
                0 <= i < pack_fold(
                    cview.take(idx as int),
                    initial_pack_state(),
                    width as nat,
                ).lines.len() ==> line_fits(
                    #[trigger] pack_fold(
                        cview.take(idx as int),
                        initial_pack_state(),
                        width as nat,
                    ).lines[i],
                    width as nat,
                ),
            line_fits(
                pack_fold(cview.take(idx as int), initial_pack_state(), width as nat).cur,
                width as nat,
            ),
            forall|i: int|
                0 <= i < pack_fold(
                    cview.take(idx as int),
                    initial_pack_state(),
                    width as nat,
                ).cur.len() ==> #[trigger] pack_fold(
                    cview.take(idx as int),
                    initial_pack_state(),
                    width as nat,
                ).cur[i].len() > 0,
            forall|i: int|
                0 <= i < pack_fold(
                    cview.take(idx as int),
                    initial_pack_state(),
                    width as nat,
                ).lines.len() ==> (#[trigger] pack_fold(
                    cview.take(idx as int),
                    initial_pack_state(),
                    width as nat,
                ).lines[i]).flatten().len() > 0,
        decreases chunks@.len() - idx,
    {
        let ghost st = pack_fold(cview.take(idx as int), initial_pack_state(), width as nat);
        let chunk: &String = &chunks[idx];
        proof {
            assert(chunk@ == cview[idx as int]);
            assert(cview[idx as int].len() > 0);
        }
        let chunk_width = text_width(chunk.as_str());
        let fits: bool = current_width <= width && chunk_width <= width - current_width;
        proof {
            assert(fits == (sum_width(st.cur) + width_of(cview[idx as int]) <= width as nat));
        }
        if fits {
            current_line.append(chunk.as_str());
            current_width = current_width + chunk_width;
        } else {
            if !current_line.as_str().is_empty() {
                lines.push(current_line);
                current_line = String::new();
            }
            current_line.append(chunk.as_str());
            current_width = chunk_width;
        }
        proof {
            let stepped = pack_step(st, cview[idx as int], width as nat);
            lemma_pack_fold_snoc(
                cview.take(idx as int),
                initial_pack_state(),
                cview[idx as int],
                width as nat,
            );
            assert(cview.take(idx as int + 1) =~= cview.take(idx as int).push(cview[idx as int]));
            assert(pack_fold(cview.take(idx as int + 1), initial_pack_state(), width as nat)
                == stepped);
            cview.take(idx as int).lemma_flatten_push(cview[idx as int]);
            if fits {
                lemma_sum_width_push(st.cur, cview[idx as int]);
                st.cur.lemma_flatten_push(cview[idx as int]);
            } else {
                // The line under construction is empty exactly when it holds
                // no chunk, since every chunk is non-empty.
                if st.cur.len() == 0 {
                    assert(st.cur.flatten() =~= Seq::<char>::empty());
                } else {
                    lemma_flatten_empty_converse(st.cur);
                    lemma_emit_line(st.lines, st.cur);
                    assert(lines.deep_view() =~= stepped.lines.map_values(
                        (|l: Seq<Seq<char>>| l.flatten()),
                    ));
                }
                assert(stepped.cur =~= seq![cview[idx as int]]);
                assert(stepped.cur.drop_first() =~= Seq::<Seq<char>>::empty());
                assert(sum_width(stepped.cur) == width_of(cview[idx as int]));
                stepped.cur.lemma_flatten_singleton();
                assert(current_line@ =~= Seq::<char>::empty() + cview[idx as int]);
            }
        }
        idx = idx + 1;
    }
    proof {
        assert(cview.take(idx as int) =~= cview);
    }
    let ghost st = pack_fold(cview, initial_pack_state(), width as nat);
    if !current_line.as_str().is_empty() {
        lines.push(current_line);
        proof {
            if st.cur.len() == 0 {
                assert(st.cur.flatten() =~= Seq::<char>::empty());
            }
            assert(st.cur.len() > 0);
            assert(po_pack(cview, width as nat) == st.lines.push(st.cur));
            lemma_emit_line(st.lines, st.cur);
            assert(lines.deep_view() =~= po_pack(cview, width as nat).map_values(
                (|l: Seq<Seq<char>>| l.flatten()),
            ));
            lemma_flatten_empty_converse(st.cur);
        }
    } else {
        proof {
            if st.cur.len() > 0 {
                lemma_flatten_empty_converse(st.cur);
            }
            assert(st.cur.len() == 0);
        }
    }
    lines
}

/// A sequence of non-empty segments with at least one segment concatenates
/// to a non-empty sequence.
proof fn lemma_flatten_empty_converse(s: Seq<Seq<char>>)
    requires
        forall|i: int| 0 <= i < s.len() ==> #[trigger] s[i].len() > 0,
        s.len() > 0,
    ensures
        s.flatten().len() > 0,
{
    assert(s.flatten() == s.first() + s.drop_first().flatten());
    assert(s[0].len() > 0);
}

/// Wrap a text for a gettext PO file.  An empty text wraps to no lines; a
/// zero width disables wrapping and yields the text as its single line; a
/// positive width yields the greedy packing of the text's chunks, whose
/// lines concatenate back to the text and each fit the width unless a line
/// is a single over-wide chunk.
pub fn gettext_wrap(text: &str, width: usize) -> (r: Vec<String>)
    ensures
        text@.len() == 0 ==> r@.len() == 0,
        width == 0 && text@.len() > 0 ==> r.deep_view() =~= seq![text@],
        width > 0 ==> r.deep_view() == po_lines(text@, width as nat),
        width > 0 ==> r.deep_view().flatten() == text@,
        width > 0 ==> forall|i: int|
            0 <= i < po_pack(po_chunks(text@), width as nat).len() ==> line_fits(
                #[trigger] po_pack(po_chunks(text@), width as nat)[i],
                width as nat,
            ),
{
    if width == 0 {
        if text.is_empty() {
            Vec::new()
        } else {
            let mut r: Vec<String> = Vec::new();
            r.push(String::from_str(text));
            proof {
                assert(r.deep_view() =~= seq![text@]);
            }
            r
        }
    } else {
        let chunks = split_po_chunks(text);
        let r = wrap_po_chunks(&chunks, width);
        proof {
            if text@.len() == 0 {
                lemma_flatten_empty(chunks.deep_view());
                assert(po_pack(chunks.deep_view(), width as nat).map_values(
                    (|l: Seq<Seq<char>>| l.flatten()),
                ) =~= Seq::<Seq<char>>::empty());
            }
        }
        r
    }
}

} // verus!
