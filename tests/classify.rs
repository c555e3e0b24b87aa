use pdf_markdown::blocks::{classify, join_block, render_block, render_document, segment, BlockKind};
use pdf_markdown::text::{is_white_space_char, split_lines, trim_line};
use pdf_markdown::text_to_markdown;

fn owned(lines: &[&str]) -> Vec<String> {
    lines.iter().map(|l| l.to_string()).collect()
}

#[test]
fn heading_boundary_at_eighty_bytes() {
    let short = "a".repeat(79);
    assert_eq!(short.len(), 79);
    assert_eq!(classify(&vec![short.clone()]), BlockKind::Heading);
    let long = "a".repeat(80);
    assert_eq!(classify(&vec![long]), BlockKind::Paragraph);
}

#[test]
fn length_counts_bytes_not_characters() {
    // 40 characters of two bytes each: 80 bytes.
    let text = "é".repeat(40);
    assert_eq!(text.chars().count(), 40);
    assert_eq!(classify(&vec![text.clone()]), BlockKind::Paragraph);
    let text = "é".repeat(39);
    assert_eq!(classify(&vec![text]), BlockKind::Heading);
}

#[test]
fn closing_punctuation_makes_a_paragraph() {
    assert_eq!(classify(&owned(&["Done."])), BlockKind::Paragraph);
    for end in [",", ";", ":", "!", "?"] {
        let line = format!("Short line{}", end);
        assert_eq!(classify(&vec![line]), BlockKind::Paragraph);
    }
    assert_eq!(classify(&owned(&["Done"])), BlockKind::Heading);
}

#[test]
fn three_lines_make_a_paragraph() {
    assert_eq!(classify(&owned(&["One", "Two", "Three"])), BlockKind::Paragraph);
    assert_eq!(classify(&owned(&["One", "Two"])), BlockKind::Heading);
}

#[test]
fn join_and_render_two_line_heading() {
    let block = owned(&["Part", "One"]);
    assert_eq!(join_block(&block), "Part One");
    assert_eq!(render_block(&block), "## Part One");
    let para = owned(&["Some text", "goes on", "and ends."]);
    assert_eq!(render_block(&para), "Some text goes on and ends.");
}

#[test]
fn end_to_end_example() {
    let input = "Introduction\n\nThis is the first paragraph of the document, spanning more than seventy-nine characters of text.";
    let expected = "## Introduction\n\nThis is the first paragraph of the document, spanning more than seventy-nine characters of text.";
    assert_eq!(text_to_markdown(input), expected);
}

#[test]
fn empty_input_gives_empty_output() {
    assert_eq!(text_to_markdown(""), "");
}

#[test]
fn blank_lines_only_give_empty_output() {
    assert_eq!(text_to_markdown("\n\n\n"), "");
    assert_eq!(text_to_markdown("  \n\t\n \r\n"), "");
}

#[test]
fn extra_blank_lines_do_not_change_blocks() {
    let a = segment(&split_lines("Title\n\nBody text here.\nMore body."));
    let b = segment(&split_lines("Title\n\n\n\n  \nBody text here.\nMore body.\n\n"));
    assert_eq!(a, b);
    assert_eq!(a, vec![owned(&["Title"]), owned(&["Body text here.", "More body."])]);
}

#[test]
fn no_block_is_empty() {
    let blocks = segment(&owned(&["", "  ", "a", "", "", "b", "c", " ", ""]));
    assert_eq!(blocks.len(), 2);
    for b in &blocks {
        assert!(!b.is_empty());
    }
}

#[test]
fn blocks_keep_input_order() {
    let blocks = segment(&owned(&["Third?", "", "first", "", "  second  ", "x"]));
    assert_eq!(
        blocks,
        vec![owned(&["Third?"]), owned(&["first"]), owned(&["second", "x"])]
    );
    assert_eq!(
        render_document(&blocks),
        "Third?\n\n## first\n\n## second x"
    );
}

#[test]
fn segment_of_no_lines_is_empty() {
    assert!(segment(&Vec::new()).is_empty());
}

#[test]
fn lines_are_trimmed_in_blocks() {
    let blocks = segment(&owned(&["\t Heading \r", "\u{3000}next\u{a0}"]));
    assert_eq!(blocks, vec![owned(&["Heading", "next"])]);
}

#[test]
fn trim_removes_unicode_whitespace() {
    assert_eq!(trim_line("  \tHello world \r"), "Hello world");
    assert_eq!(trim_line("\u{2003}x\u{3000}"), "x");
    assert_eq!(trim_line(" \n "), "");
    assert_eq!(trim_line("a b"), "a b");
}

#[test]
fn split_lines_at_line_feeds() {
    assert_eq!(split_lines("a\r\nb\n"), owned(&["a\r", "b", ""]));
    assert_eq!(split_lines(""), owned(&[""]));
    assert_eq!(split_lines("one"), owned(&["one"]));
}

#[test]
fn render_document_skips_empty_blocks() {
    let blocks = vec![owned(&["First."]), owned(&[""]), owned(&["Second."])];
    assert_eq!(render_document(&blocks), "First.\n\nSecond.");
    assert_eq!(render_document(&vec![owned(&[""])]), "");
}

#[test]
fn crlf_text_converts_like_lf_text() {
    let a = text_to_markdown("Heading\r\n\r\nA long paragraph, which goes on.\r\n");
    assert_eq!(a, "## Heading\n\nA long paragraph, which goes on.");
}

#[test]
fn output_pieces_match_blocks_in_order() {
    let text = "  Title  \n\n\nFirst line\nsecond line, and more.\n \nA\nB\nC\n\nEnd";
    let md = text_to_markdown(text);
    let pieces: Vec<&str> = md.split("\n\n").collect();
    assert_eq!(
        pieces,
        vec!["## Title", "First line second line, and more.", "A B C", "## End"]
    );
    for p in &pieces {
        assert!(!p.is_empty());
        assert!(!p.contains('\n'));
    }
}

#[test]
fn white_space_char_matches_std() {
    for u in 0u32..0x3100 {
        if let Some(c) = char::from_u32(u) {
            assert_eq!(is_white_space_char(c), c.is_whitespace(), "code point {:x}", u);
        }
    }
}
