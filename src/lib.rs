//! Rebuilds paragraph and heading structure from plain text extracted from a
//! PDF, and writes it out as Markdown.

pub mod blocks;
pub mod laws;
pub mod pandoc;
pub mod text;

use vstd::prelude::*;
use crate::blocks::{document, render_document, segment, segmentation};
use crate::text::{line_pieces, split_lines};

verus! {

/// The Markdown of raw text: its lines grouped into blocks, each block
/// classified and rendered.
pub open spec fn markdown_of(text: Seq<char>) -> Seq<char> {
    document(segmentation(line_pieces(text)))
}

/// Converts raw extracted text to Markdown.
pub fn text_to_markdown(text: &str) -> (r: String)
    ensures
        r@ == markdown_of(text@),
{
    let lines = split_lines(text);
    let blocks = segment(&lines);
    render_document(&blocks)
}

} // verus!
