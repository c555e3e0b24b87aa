//! What holds of segmentation and rendering for every input.

use vstd::prelude::*;
use crate::blocks::{
    document, is_heading, joined, rendered, segment_run, segment_start, segment_step, segmentation,
};
use crate::markdown_of;
use crate::text::{is_blank, lemma_line_pieces_len, line_pieces, trim_end, trim_start, trimmed};

verus! {

/// Whether line `i` of `lines` opens a block: it is not blank, and it is the
/// first line or follows a blank one.
pub open spec fn starts_block(lines: Seq<Seq<char>>, i: int) -> bool {
    &&& !is_blank(lines[i])
    &&& (i == 0 || is_blank(lines[i - 1]))
}

/// The positions of the lines that open a block, in increasing order.
pub open spec fn block_starts(lines: Seq<Seq<char>>) -> Seq<int>
    decreases lines.len(),
{
    if lines.len() == 0 {
        Seq::empty()
    } else {
        let before = block_starts(lines.drop_last());
        if starts_block(lines, lines.len() - 1) {
            before.push(lines.len() - 1)
        } else {
            before
        }
    }
}

proof fn lemma_run_concat(
    state: (Seq<Seq<Seq<char>>>, Seq<Seq<char>>),
    a: Seq<Seq<char>>,
    b: Seq<Seq<char>>,
)
    ensures
        segment_run(state, a + b) == segment_run(segment_run(state, a), b),
    decreases b.len(),
{
    if b.len() == 0 {
        assert(a + b =~= a);
    } else {
        assert((a + b).drop_last() =~= a + b.drop_last());
        assert((a + b).last() == b.last());
        lemma_run_concat(state, a, b.drop_last());
    }
}

proof fn lemma_extra_blank_line(
    before: Seq<Seq<char>>,
    blank: Seq<char>,
    after: Seq<Seq<char>>,
)
    requires
        before.len() == 0 || is_blank(before.last()),
        is_blank(blank),
    ensures
        segmentation(before + seq![blank] + after) == segmentation(before + after),
{
    let start = segment_start();
    let mid = segment_run(start, before);
    if before.len() > 0 {
        assert(mid == segment_step(segment_run(start, before.drop_last()), before.last()));
    }
    assert(mid.1.len() == 0);
    lemma_run_concat(start, before, seq![blank]);
    assert(seq![blank].drop_last() =~= Seq::<Seq<char>>::empty());
    assert(segment_run(mid, Seq::<Seq<char>>::empty()) == mid);
    assert(seq![blank].last() == blank);
    assert(segment_run(mid, seq![blank]) == segment_step(mid, blank));
    assert(segment_run(start, before + seq![blank]) == mid);
    lemma_run_concat(start, before + seq![blank], after);
    lemma_run_concat(start, before, after);
}

/// Inserting blank lines right after a blank line, or before the first
/// line, leaves the blocks as they were: extra blank lines between two blocks
/// change nothing.
pub proof fn segmentation_ignores_extra_blank_lines(
    before: Seq<Seq<char>>,
    blanks: Seq<Seq<char>>,
    after: Seq<Seq<char>>,
)
    requires
        before.len() == 0 || is_blank(before.last()),
        forall|i: int| 0 <= i < blanks.len() ==> is_blank(#[trigger] blanks[i]),
    ensures
        segmentation(before + blanks + after) == segmentation(before + after),
    decreases blanks.len(),
{
    if blanks.len() > 0 {
        let rest = blanks.drop_first();
        assert forall|i: int| 0 <= i < rest.len() implies is_blank(#[trigger] rest[i]) by {
            assert(rest[i] == blanks[i + 1]);
        }
        assert(is_blank(blanks[0]));
        assert(before + blanks + after =~= before + seq![blanks[0]] + (rest + after));
        lemma_extra_blank_line(before, blanks[0], rest + after);
        assert(before + (rest + after) =~= before + rest + after);
        segmentation_ignores_extra_blank_lines(before, rest, after);
    }
}

proof fn lemma_run_order(lines: Seq<Seq<char>>)
    ensures
        ({
            let state = segment_run(segment_start(), lines);
            let s = block_starts(lines);
            &&& state.0.len() + (if state.1.len() > 0 { 1int } else { 0int }) == s.len()
            &&& state.1.len() > 0 <==> (lines.len() > 0 && !is_blank(lines.last()))
            &&& forall|k: int| 0 <= k < s.len() ==> 0 <= #[trigger] s[k] < lines.len()
            &&& forall|k: int, l: int| 0 <= k < l < s.len() ==> s[k] < s[l]
            &&& forall|k: int|
                0 <= k < state.0.len() ==> (#[trigger] state.0[k]).len() >= 1 && state.0[k][0]
                    == trimmed(lines[s[k]])
            &&& state.1.len() > 0 ==> state.1[0] == trimmed(lines[s.last()])
        }),
    decreases lines.len(),
{
    if lines.len() > 0 {
        let p = lines.drop_last();
        lemma_run_order(p);
        let n = lines.len() - 1;
        assert forall|j: int| 0 <= j < n implies p[j] == lines[j] by {}
        if n > 0 {
            assert(p.last() == lines[n - 1]);
        }
    }
}

/// Every block holds at least one line.
pub proof fn segmentation_has_no_empty_block(lines: Seq<Seq<char>>)
    ensures
        forall|k: int|
            0 <= k < segmentation(lines).len() ==> (#[trigger] segmentation(lines)[k]).len() >= 1,
{
    lemma_run_order(lines);
}

proof fn lemma_joined_starts_with_first(block: Seq<Seq<char>>)
    requires
        block.len() >= 1,
    ensures
        block[0].len() <= joined(block).len(),
        joined(block).subrange(0, block[0].len() as int) == block[0],
    decreases block.len(),
{
    if block.len() == 1 {
        assert(joined(block).subrange(0, block[0].len() as int) =~= block[0]);
    } else {
        let p = block.drop_last();
        lemma_joined_starts_with_first(p);
        let j = joined(block);
        assert(j == joined(p) + seq![' '] + block.last());
        assert(j.subrange(0, block[0].len() as int) =~= joined(p).subrange(
            0,
            block[0].len() as int,
        ));
    }
}

/// The blocks come in the order of the lines that open them: block `k` is
/// opened by line `block_starts(lines)[k]`, those positions increase, and
/// the joined text of block `k` begins with that line, trimmed.
pub proof fn segmentation_keeps_order(lines: Seq<Seq<char>>)
    ensures
        ({
            let b = segmentation(lines);
            let s = block_starts(lines);
            &&& b.len() == s.len()
            &&& forall|k: int| 0 <= k < s.len() ==> 0 <= #[trigger] s[k] < lines.len()
            &&& forall|k: int, l: int| 0 <= k < l < s.len() ==> s[k] < s[l]
            &&& forall|k: int|
                0 <= k < b.len() ==> (#[trigger] b[k])[0] == trimmed(lines[s[k]])
                    && joined(b[k]).subrange(0, trimmed(lines[s[k]]).len() as int) == trimmed(
                    lines[s[k]],
                )
        }),
{
    lemma_run_order(lines);
    let b = segmentation(lines);
    assert forall|k: int| 0 <= k < b.len() implies (#[trigger] b[k])[0] == trimmed(
        lines[block_starts(lines)[k]],
    ) && joined(b[k]).subrange(0, trimmed(lines[block_starts(lines)[k]]).len() as int) == trimmed(
        lines[block_starts(lines)[k]],
    ) by {
        lemma_joined_starts_with_first(b[k]);
    }
}

/// Text whose lines are all blank has no block and renders as nothing.
pub proof fn blank_lines_render_empty(lines: Seq<Seq<char>>)
    requires
        forall|i: int| 0 <= i < lines.len() ==> is_blank(#[trigger] lines[i]),
    ensures
        segmentation(lines).len() == 0,
        document(segmentation(lines)).len() == 0,
{
    lemma_blank_run(lines);
}

proof fn lemma_blank_run(lines: Seq<Seq<char>>)
    requires
        forall|i: int| 0 <= i < lines.len() ==> is_blank(#[trigger] lines[i]),
    ensures
        segment_run(segment_start(), lines) == segment_start(),
    decreases lines.len(),
{
    if lines.len() > 0 {
        let p = lines.drop_last();
        assert forall|i: int| 0 <= i < p.len() implies is_blank(#[trigger] p[i]) by {
            assert(p[i] == lines[i]);
        }
        lemma_blank_run(p);
        assert(is_blank(lines[lines.len() - 1]));
    }
}

/// Whether no line feed is in `s`.
pub open spec fn has_no_line_feed(s: Seq<char>) -> bool {
    forall|i: int| 0 <= i < s.len() ==> s[i] != '\n'
}

/// `pieces` joined with a blank line (two line feeds) between neighbours.
pub open spec fn separated(pieces: Seq<Seq<char>>) -> Seq<char>
    decreases pieces.len(),
{
    if pieces.len() == 0 {
        Seq::empty()
    } else if pieces.len() == 1 {
        pieces[0]
    } else {
        separated(pieces.drop_last()) + seq!['\n', '\n'] + pieces.last()
    }
}

proof fn lemma_line_pieces_have_no_line_feed(s: Seq<char>)
    ensures
        forall|k: int|
            0 <= k < line_pieces(s).len() ==> has_no_line_feed(#[trigger] line_pieces(s)[k]),
    decreases s.len(),
{
    if s.len() > 0 {
        let p = line_pieces(s.drop_last());
        lemma_line_pieces_have_no_line_feed(s.drop_last());
        lemma_line_pieces_len(s.drop_last());
        if s.last() != '\n' {
            let q = p.update(p.len() - 1, p.last().push(s.last()));
            assert forall|k: int| 0 <= k < q.len() implies has_no_line_feed(#[trigger] q[k]) by {
                if k == p.len() - 1 {
                    assert(has_no_line_feed(p[k]));
                }
            }
        } else {
            let q = p.push(Seq::<char>::empty());
            assert forall|k: int| 0 <= k < q.len() implies has_no_line_feed(#[trigger] q[k]) by {
                if k < p.len() {
                    assert(q[k] == p[k]);
                }
            }
        }
    }
}

proof fn lemma_trim_keeps_no_line_feed(s: Seq<char>)
    requires
        has_no_line_feed(s),
    ensures
        has_no_line_feed(trim_start(s)),
        has_no_line_feed(trim_end(trim_start(s))),
{
    lemma_trim_start_no_line_feed(s);
    lemma_trim_end_no_line_feed(trim_start(s));
}

proof fn lemma_trim_start_no_line_feed(s: Seq<char>)
    requires
        has_no_line_feed(s),
    ensures
        has_no_line_feed(trim_start(s)),
    decreases s.len(),
{
    if s.len() > 0 && crate::text::is_white_space(s[0]) {
        let t = s.drop_first();
        assert forall|i: int| 0 <= i < t.len() implies t[i] != '\n' by {
            assert(t[i] == s[i + 1]);
        }
        lemma_trim_start_no_line_feed(t);
    }
}

proof fn lemma_trim_end_no_line_feed(s: Seq<char>)
    requires
        has_no_line_feed(s),
    ensures
        has_no_line_feed(trim_end(s)),
    decreases s.len(),
{
    if s.len() > 0 && crate::text::is_white_space(s.last()) {
        let t = s.drop_last();
        assert forall|i: int| 0 <= i < t.len() implies t[i] != '\n' by {
            assert(t[i] == s[i]);
        }
        lemma_trim_end_no_line_feed(t);
    }
}

/// Whether every line of `block` is non-empty and free of line feeds.
spec fn clean_lines(block: Seq<Seq<char>>) -> bool {
    forall|j: int|
        0 <= j < block.len() ==> (#[trigger] block[j]).len() > 0 && has_no_line_feed(block[j])
}

proof fn lemma_run_clean(lines: Seq<Seq<char>>)
    requires
        forall|k: int| 0 <= k < lines.len() ==> has_no_line_feed(#[trigger] lines[k]),
    ensures
        ({
            let state = segment_run(segment_start(), lines);
            &&& forall|k: int| 0 <= k < state.0.len() ==> clean_lines(#[trigger] state.0[k])
            &&& clean_lines(state.1)
        }),
    decreases lines.len(),
{
    if lines.len() > 0 {
        let p = lines.drop_last();
        assert forall|k: int| 0 <= k < p.len() implies has_no_line_feed(#[trigger] p[k]) by {
            assert(p[k] == lines[k]);
        }
        lemma_run_clean(p);
        let l = lines.last();
        assert(has_no_line_feed(l));
        lemma_trim_keeps_no_line_feed(l);
        let before = segment_run(segment_start(), p);
        let after = segment_run(segment_start(), lines);
        if is_blank(l) {
            if before.1.len() > 0 {
                assert forall|k: int| 0 <= k < after.0.len() implies clean_lines(
                    #[trigger] after.0[k],
                ) by {
                    if k < before.0.len() {
                        assert(after.0[k] == before.0[k]);
                    }
                }
            }
        } else {
            let open = before.1.push(trimmed(l));
            assert forall|j: int| 0 <= j < open.len() implies (#[trigger] open[j]).len() > 0
                && has_no_line_feed(open[j]) by {
                if j < before.1.len() {
                    assert(open[j] == before.1[j]);
                }
            }
        }
    }
}

proof fn lemma_joined_clean(block: Seq<Seq<char>>)
    requires
        block.len() >= 1,
        clean_lines(block),
    ensures
        joined(block).len() > 0,
        has_no_line_feed(joined(block)),
    decreases block.len(),
{
    if block.len() > 1 {
        let p = block.drop_last();
        assert forall|j: int| 0 <= j < p.len() implies (#[trigger] p[j]).len() > 0
            && has_no_line_feed(p[j]) by {
            assert(p[j] == block[j]);
        }
        lemma_joined_clean(p);
        let j = joined(block);
        let a = joined(p);
        let b = block.last();
        assert(j == a + seq![' '] + b);
        assert(has_no_line_feed(b));
        assert forall|i: int| 0 <= i < j.len() implies j[i] != '\n' by {
            if i < a.len() {
                assert(j[i] == a[i]);
            } else if i > a.len() {
                assert(j[i] == b[i - a.len() - 1]);
            }
        }
    } else {
        assert(joined(block) == block[0]);
    }
}

proof fn lemma_document_separated(blocks: Seq<Seq<Seq<char>>>)
    requires
        forall|k: int| 0 <= k < blocks.len() ==> joined(#[trigger] blocks[k]).len() > 0,
    ensures
        document(blocks) == separated(blocks.map_values(|b: Seq<Seq<char>>| rendered(b))),
        document(blocks).len() == 0 <==> blocks.len() == 0,
    decreases blocks.len(),
{
    if blocks.len() > 0 {
        let p = blocks.drop_last();
        assert forall|k: int| 0 <= k < p.len() implies joined(#[trigger] p[k]).len() > 0 by {
            assert(p[k] == blocks[k]);
        }
        lemma_document_separated(p);
        let all = blocks.map_values(|b: Seq<Seq<char>>| rendered(b));
        assert(all.drop_last() =~= p.map_values(|b: Seq<Seq<char>>| rendered(b)));
        assert(joined(blocks.last()).len() > 0);
        if is_heading(blocks.last()) {
            assert(rendered(blocks.last()).len() == 3 + joined(blocks.last()).len());
        }
        if p.len() == 0 {
            assert(document(p).len() == 0);
        }
    }
}

/// The Markdown of `text` is its rendered blocks, in the order of
/// [`segmentation`], with one blank line between neighbours: each piece is
/// not empty and holds no line feed, so no empty block is written, and the
/// output is empty exactly when the text has no block.
pub proof fn markdown_is_separated_blocks(text: Seq<char>)
    ensures
        ({
            let b = segmentation(line_pieces(text));
            let pieces = b.map_values(|x: Seq<Seq<char>>| rendered(x));
            &&& markdown_of(text) == separated(pieces)
            &&& markdown_of(text).len() == 0 <==> b.len() == 0
            &&& forall|k: int|
                0 <= k < pieces.len() ==> (#[trigger] pieces[k]).len() > 0 && has_no_line_feed(
                    pieces[k],
                ) && pieces[k] == rendered(b[k])
        }),
{
    let lines = line_pieces(text);
    lemma_line_pieces_have_no_line_feed(text);
    lemma_run_clean(lines);
    lemma_run_order(lines);
    let state = segment_run(segment_start(), lines);
    let b = segmentation(lines);
    assert forall|k: int| 0 <= k < b.len() implies clean_lines(#[trigger] b[k]) && b[k].len()
        >= 1 by {
        if k < state.0.len() {
            assert(b[k] == state.0[k]);
        }
    }
    assert forall|k: int| 0 <= k < b.len() implies joined(#[trigger] b[k]).len() > 0
        && has_no_line_feed(joined(b[k])) by {
        lemma_joined_clean(b[k]);
    }
    lemma_document_separated(b);
    let pieces = b.map_values(|x: Seq<Seq<char>>| rendered(x));
    assert forall|k: int| 0 <= k < pieces.len() implies (#[trigger] pieces[k]).len() > 0
        && has_no_line_feed(pieces[k]) && pieces[k] == rendered(b[k]) by {
        let j = joined(b[k]);
        assert(j.len() > 0 && has_no_line_feed(j));
        if is_heading(b[k]) {
            let r = seq!['#', '#', ' '] + j;
            assert forall|i: int| 0 <= i < r.len() implies r[i] != '\n' by {
                if i >= 3 {
                    assert(r[i] == j[i - 3]);
                }
            }
        }
    }
}

} // verus!
