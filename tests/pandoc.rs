use pdf_markdown::pandoc::{clean_pandoc_markup, pandoc_export_args, pandoc_import_args, replace_all};

#[test]
fn sup_and_sub_tags_become_marks() {
    assert_eq!(clean_pandoc_markup("x<sup>2</sup> and H<sub>2</sub>O"), "x^2^ and H~2~O");
    assert_eq!(clean_pandoc_markup("plain text"), "plain text");
    assert_eq!(clean_pandoc_markup(""), "");
}

#[test]
fn replace_all_scans_left_to_right() {
    assert_eq!(replace_all("aaa", "aa", "b"), "ba");
    assert_eq!(replace_all("abcabc", "bc", ""), "aa");
    assert_eq!(replace_all("héllo", "é", "e"), "hello");
    assert_eq!(replace_all("ab", "abc", "x"), "ab");
}

#[test]
fn import_args_name_the_format_and_file() {
    assert_eq!(
        pandoc_import_args("in.docx", "docx"),
        vec![
            "-f",
            "docx",
            "-t",
            "markdown-raw_html-native_spans-native_divs",
            "--wrap=none",
            "--extract-media=.",
            "in.docx"
        ]
    );
}

#[test]
fn export_args_use_wkhtmltopdf_for_pdf_only() {
    let pdf = pandoc_export_args("out.pdf", "pdf");
    assert_eq!(
        pdf,
        vec!["-f", "markdown", "-t", "pdf", "--wrap=none", "-o", "out.pdf", "--pdf-engine=wkhtmltopdf"]
    );
    let docx = pandoc_export_args("out.docx", "docx");
    assert_eq!(
        docx,
        vec!["-f", "markdown", "-t", "docx", "--wrap=none", "-o", "out.docx"]
    );
}

#[test]
fn empty_pattern_goes_between_every_character() {
    assert_eq!(replace_all("abc", "", "x"), "xaxbxcx");
    assert_eq!(replace_all("", "", "x"), "x");
    assert_eq!(replace_all("é", "", "-"), "-é-");
}
