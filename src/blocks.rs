//! Grouping lines into blocks at blank lines, telling headings from
//! paragraphs, and writing the blocks out as Markdown.

use vstd::prelude::*;
use vstd::utf8::encode_utf8;
use crate::text::{is_blank, trimmed, trim_line};

verus! {

/// What segmentation knows after some lines: the sealed blocks, and the
/// trimmed lines of the block still open (empty when none is open).
pub open spec fn segment_step(
    state: (Seq<Seq<Seq<char>>>, Seq<Seq<char>>),
    line: Seq<char>,
) -> (Seq<Seq<Seq<char>>>, Seq<Seq<char>>) {
    if is_blank(line) {
        if state.1.len() > 0 {
            (state.0.push(state.1), Seq::empty())
        } else {
            state
        }
    } else {
        (state.0, state.1.push(trimmed(line)))
    }
}

/// The state after reading `lines` from `state`, one line at a time.
pub open spec fn segment_run(
    state: (Seq<Seq<Seq<char>>>, Seq<Seq<char>>),
    lines: Seq<Seq<char>>,
) -> (Seq<Seq<Seq<char>>>, Seq<Seq<char>>)
    decreases lines.len(),
{
    if lines.len() == 0 {
        state
    } else {
        segment_step(segment_run(state, lines.drop_last()), lines.last())
    }
}

/// The state before any line is read: no block, none open.
pub open spec fn segment_start() -> (Seq<Seq<Seq<char>>>, Seq<Seq<char>>) {
    (Seq::empty(), Seq::empty())
}

/// The blocks of `lines`: runs of non-blank lines, trimmed, split at blank
/// lines, with the block still open at the end sealed too.
pub open spec fn segmentation(lines: Seq<Seq<char>>) -> Seq<Seq<Seq<char>>> {
    let state = segment_run(segment_start(), lines);
    if state.1.len() > 0 {
        state.0.push(state.1)
    } else {
        state.0
    }
}

/// The lines of `block` joined with one space between neighbours.
pub open spec fn joined(block: Seq<Seq<char>>) -> Seq<char>
    decreases block.len(),
{
    if block.len() == 0 {
        Seq::empty()
    } else if block.len() == 1 {
        block[0]
    } else {
        joined(block.drop_last()) + seq![' '] + block.last()
    }
}

/// Whether `s` ends in one of `.` `,` `;` `:` `!` `?`.
pub open spec fn ends_in_punctuation(s: Seq<char>) -> bool {
    s.len() > 0 && {
        let c = s.last();
        c == '.' || c == ',' || c == ';' || c == ':' || c == '!' || c == '?'
    }
}

/// The heading rule on a block's joined text and its number of lines: under
/// 80 bytes of UTF-8, no closing punctuation, at most two lines.
pub open spec fn heading_rule(text: Seq<char>, line_count: nat) -> bool {
    &&& encode_utf8(text).len() < 80
    &&& !ends_in_punctuation(text)
    &&& line_count <= 2
}

/// Whether `block` is a heading.
pub open spec fn is_heading(block: Seq<Seq<char>>) -> bool {
    heading_rule(joined(block), block.len())
}

/// The Markdown of one block: its joined text, after `## ` for a heading.
pub open spec fn rendered(block: Seq<Seq<char>>) -> Seq<char> {
    if is_heading(block) {
        seq!['#', '#', ' '] + joined(block)
    } else {
        joined(block)
    }
}

/// The Markdown of `blocks`: each rendered block, in order, one blank line
/// between neighbours; a block whose joined text is empty is left out.
pub open spec fn document(blocks: Seq<Seq<Seq<char>>>) -> Seq<char>
    decreases blocks.len(),
{
    if blocks.len() == 0 {
        Seq::empty()
    } else {
        let before = document(blocks.drop_last());
        let b = blocks.last();
        if joined(b).len() == 0 {
            before
        } else if before.len() == 0 {
            rendered(b)
        } else {
            before + seq!['\n', '\n'] + rendered(b)
        }
    }
}

/// Whether a block is a heading or body text.
#[derive(PartialEq, Eq, Structural, Debug, Clone, Copy)]
pub enum BlockKind {
    Heading,
    Paragraph,
}

/// Groups `lines` into blocks: each non-blank line, trimmed, joins the block
/// that is open, and a blank line seals it.
pub fn segment(lines: &Vec<String>) -> (r: Vec<Vec<String>>)
    ensures
        r.deep_view() == segmentation(lines.deep_view()),
        forall|k: int| 0 <= k < r.len() ==> (#[trigger] r@[k]).len() >= 1,
{
    let ghost input = lines.deep_view();
    let mut blocks: Vec<Vec<String>> = Vec::new();
    let mut current: Vec<String> = Vec::new();
    let mut i: usize = 0;
    assert((blocks.deep_view(), current.deep_view()) =~= segment_run(
        segment_start(),
        input.take(0),
    ));
    while i < lines.len()
        invariant
            i <= lines.len(),
            input == lines.deep_view(),
            (blocks.deep_view(), current.deep_view()) == segment_run(
                segment_start(),
                input.take(i as int),
            ),
            forall|k: int| 0 <= k < blocks.len() ==> (#[trigger] blocks@[k]).len() >= 1,
        decreases lines.len() - i,
    {
        let t = trim_line(lines[i].as_str());
        let ghost blocks_before = blocks.deep_view();
        let ghost current_before = current.deep_view();
        proof {
            assert(input.take(i + 1).drop_last() =~= input.take(i as int));
            assert(input.take(i + 1).last() == lines[i as int]@);
        }
        if t.as_str().is_empty() {
            if current.len() > 0 {
                blocks.push(current);
                current = Vec::new();
                assert(blocks.deep_view() =~= blocks_before.push(current_before));
                assert(current.deep_view() =~= Seq::<Seq<char>>::empty());
            }
        } else {
            current.push(t);
            assert(current.deep_view() =~= current_before.push(trimmed(lines[i as int]@)));
        }
        i += 1;
    }
    assert(input.take(i as int) =~= input);
    if current.len() > 0 {
        let ghost blocks_before = blocks.deep_view();
        let ghost current_before = current.deep_view();
        blocks.push(current);
        assert(blocks.deep_view() =~= blocks_before.push(current_before));
    }
    blocks
}

/// The lines of `block` joined with one space between neighbours.
pub fn join_block(block: &Vec<String>) -> (r: String)
    ensures
        r@ == joined(block.deep_view()),
{
    let ghost lines = block.deep_view();
    let mut r = String::new();
    let mut i: usize = 0;
    assert(lines.take(0) =~= Seq::<Seq<char>>::empty());
    while i < block.len()
        invariant
            i <= block.len(),
            lines == block.deep_view(),
            r@ == joined(lines.take(i as int)),
        decreases block.len() - i,
    {
        assert(lines.take(i + 1).drop_last() =~= lines.take(i as int));
        if i > 0 {
            r.push(' ');
        }
        r.append(block[i].as_str());
        i += 1;
    }
    assert(lines.take(i as int) =~= lines);
    r
}

/// Whether a block whose joined text is `text` and which has `line_count`
/// lines is a heading.
pub fn is_heading_text(text: &str, line_count: usize) -> (r: bool)
    ensures
        r == heading_rule(text@, line_count as nat),
{
    let short = text.as_bytes().len() < 80;
    let chars = crate::text::chars_of(text);
    let n = chars.len();
    let punctuated = n > 0 && {
        let c = chars[n - 1];
        c == '.' || c == ',' || c == ';' || c == ':' || c == '!' || c == '?'
    };
    short && !punctuated && line_count <= 2
}

/// Tells whether `block` is a heading or a paragraph.
pub fn classify(block: &Vec<String>) -> (r: BlockKind)
    ensures
        r == (if is_heading(block.deep_view()) {
            BlockKind::Heading
        } else {
            BlockKind::Paragraph
        }),
{
    let text = join_block(block);
    if is_heading_text(text.as_str(), block.len()) {
        BlockKind::Heading
    } else {
        BlockKind::Paragraph
    }
}

/// The Markdown of a block whose joined text is `text` and which has
/// `line_count` lines.
fn render_joined(text: String, line_count: usize) -> (r: String)
    ensures
        r@ == (if heading_rule(text@, line_count as nat) {
            seq!['#', '#', ' '] + text@
        } else {
            text@
        }),
{
    if is_heading_text(text.as_str(), line_count) {
        let mut r = String::new();
        r.push('#');
        r.push('#');
        r.push(' ');
        r.append(text.as_str());
        assert(r@ =~= seq!['#', '#', ' '] + text@);
        r
    } else {
        text
    }
}

/// The Markdown of one block: its joined text, after `## ` for a heading.
pub fn render_block(block: &Vec<String>) -> (r: String)
    ensures
        r@ == rendered(block.deep_view()),
{
    render_joined(join_block(block), block.len())
}

/// The Markdown of `blocks`, in order, one blank line between neighbours;
/// blocks with no text are left out.
pub fn render_document(blocks: &Vec<Vec<String>>) -> (r: String)
    ensures
        r@ == document(blocks.deep_view()),
{
    let ghost all = blocks.deep_view();
    let mut r = String::new();
    let mut i: usize = 0;
    assert(all.take(0) =~= Seq::<Seq<Seq<char>>>::empty());
    while i < blocks.len()
        invariant
            i <= blocks.len(),
            all == blocks.deep_view(),
            r@ == document(all.take(i as int)),
        decreases blocks.len() - i,
    {
        assert(all.take(i + 1).drop_last() =~= all.take(i as int));
        assert(all.take(i + 1).last() == blocks[i as int].deep_view());
        let text = join_block(&blocks[i]);
        if !text.as_str().is_empty() {
            let piece = render_joined(text, blocks[i].len());
            let ghost before = r@;
            if !r.as_str().is_empty() {
                r.push('\n');
                r.push('\n');
            }
            r.append(piece.as_str());
            assert(before.len() > 0 ==> r@ =~= before + seq!['\n', '\n'] + piece@);
            assert(before.len() == 0 ==> r@ =~= piece@);
        }
        i += 1;
    }
    assert(all.take(i as int) =~= all);
    r
}

} // verus!
