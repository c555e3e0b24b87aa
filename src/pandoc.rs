//! The computing side of the pandoc conversions: the argument lists handed to
//! pandoc, and the clean-up of the Markdown it writes.

use vstd::prelude::*;
use crate::text::chars_of;

verus! {

/// `s` with each occurrence of `pat` replaced by `rep`, scanning from the
/// left; occurrences do not overlap. The empty pattern occurs before each
/// character and at the end.
pub open spec fn replaced(s: Seq<char>, pat: Seq<char>, rep: Seq<char>) -> Seq<char>
    decreases s.len(),
{
    if pat.len() == 0 {
        if s.len() == 0 {
            rep
        } else {
            rep + seq![s[0]] + replaced(s.drop_first(), pat, rep)
        }
    } else if s.len() == 0 {
        s
    } else if s.len() >= pat.len() && s.take(pat.len() as int) == pat {
        rep + replaced(s.skip(pat.len() as int), pat, rep)
    } else {
        seq![s[0]] + replaced(s.drop_first(), pat, rep)
    }
}

/// Whether `pat` occurs in `v` at position `i`.
fn occurs_at(v: &Vec<char>, pat: &Vec<char>, i: usize) -> (r: bool)
    requires
        i <= v.len(),
    ensures
        r == (i + pat.len() <= v.len() && v@.subrange(i as int, i + pat.len()) == pat@),
{
    if pat.len() > v.len() - i {
        return false;
    }
    let mut k: usize = 0;
    while k < pat.len()
        invariant
            i + pat.len() <= v.len(),
            k <= pat.len(),
            forall|j: int| 0 <= j < k ==> v@[i + j] == pat@[j],
        decreases pat.len() - k,
    {
        if v[i + k] != pat[k] {
            assert(v@.subrange(i as int, i + pat.len())[k as int] != pat@[k as int]);
            return false;
        }
        k += 1;
    }
    assert(v@.subrange(i as int, i + pat.len()) =~= pat@);
    true
}

/// `s` with each occurrence of `pat` replaced by `rep`, from the left.
pub fn replace_all(s: &str, pat: &str, rep: &str) -> (r: String)
    ensures
        r@ == replaced(s@, pat@, rep@),
{
    let v = chars_of(s);
    let p = chars_of(pat);
    let mut r = String::new();
    let mut i: usize = 0;
    assert(v@.skip(0) =~= v@);
    while i < v.len()
        invariant
            i <= v.len(),
            v@ == s@,
            p@ == pat@,
            replaced(s@, pat@, rep@) == r@ + replaced(v@.skip(i as int), pat@, rep@),
        decreases v.len() - i,
    {
        let ghost rest = v@.skip(i as int);
        let ghost before = r@;
        if p.len() == 0 {
            assert(rest.drop_first() =~= v@.skip(i + 1));
            r.append(rep);
            r.push(v[i]);
            i += 1;
            assert(replaced(s@, pat@, rep@) == r@ + replaced(v@.skip(i as int), pat@, rep@))
                by {
                assert(before + (rep@ + seq![rest[0]] + replaced(v@.skip(i as int), pat@, rep@))
                    =~= r@ + replaced(v@.skip(i as int), pat@, rep@));
            }
        } else if occurs_at(&v, &p, i) {
            assert(rest.take(p@.len() as int) =~= v@.subrange(i as int, i + p@.len()));
            assert(rest.skip(p@.len() as int) =~= v@.skip(i + p@.len()));
            r.append(rep);
            i += p.len();
            assert(replaced(s@, pat@, rep@) == r@ + replaced(v@.skip(i as int), pat@, rep@))
                by {
                assert(before + (rep@ + replaced(v@.skip(i as int), pat@, rep@)) =~= r@
                    + replaced(v@.skip(i as int), pat@, rep@));
            }
        } else {
            assert(rest.len() >= p@.len() ==> rest.take(p@.len() as int) =~= v@.subrange(
                i as int,
                i + p@.len(),
            ));
            assert(rest.drop_first() =~= v@.skip(i + 1));
            r.push(v[i]);
            i += 1;
            assert(replaced(s@, pat@, rep@) == r@ + replaced(v@.skip(i as int), pat@, rep@))
                by {
                assert(before + (seq![rest[0]] + replaced(v@.skip(i as int), pat@, rep@)) =~= r@
                    + replaced(v@.skip(i as int), pat@, rep@));
            }
        }
    }
    assert(v@.skip(i as int) =~= Seq::<char>::empty());
    if p.len() == 0 {
        r.append(rep);
    } else {
        assert(r@ + Seq::<char>::empty() =~= r@);
    }
    r
}

/// Markdown from pandoc with the HTML tags for superscript and subscript that
/// it leaves behind turned into Markdown marks: `<sup>` and `</sup>` become
/// `^`, `<sub>` and `</sub>` become `~`.
pub fn clean_pandoc_markup(s: &str) -> (r: String)
    ensures
        r@ == replaced(
            replaced(
                replaced(replaced(s@, "<sup>"@, "^"@), "</sup>"@, "^"@),
                "<sub>"@,
                "~"@,
            ),
            "</sub>"@,
            "~"@,
        ),
{
    let a = replace_all(s, "<sup>", "^");
    let b = replace_all(a.as_str(), "</sup>", "^");
    let c = replace_all(b.as_str(), "<sub>", "~");
    replace_all(c.as_str(), "</sub>", "~")
}

/// The arguments that make pandoc read `file_path` in the format
/// `from_format` and write Markdown without raw HTML, native spans or
/// native divs, unwrapped, with its media extracted to the working directory.
pub fn pandoc_import_args(file_path: &str, from_format: &str) -> (r: Vec<String>)
    ensures
        r.deep_view() == seq![
            "-f"@,
            from_format@,
            "-t"@,
            "markdown-raw_html-native_spans-native_divs"@,
            "--wrap=none"@,
            "--extract-media=."@,
            file_path@,
        ],
{
    let mut r: Vec<String> = Vec::new();
    r.push(String::from_str("-f"));
    r.push(String::from_str(from_format));
    r.push(String::from_str("-t"));
    r.push(String::from_str("markdown-raw_html-native_spans-native_divs"));
    r.push(String::from_str("--wrap=none"));
    r.push(String::from_str("--extract-media=."));
    r.push(String::from_str(file_path));
    assert(r.deep_view() =~= seq![
        "-f"@,
        from_format@,
        "-t"@,
        "markdown-raw_html-native_spans-native_divs"@,
        "--wrap=none"@,
        "--extract-media=."@,
        file_path@,
    ]);
    r
}

/// The arguments that make pandoc read Markdown and write it, unwrapped, to
/// `output_path` in the format `to_format`; PDF goes through wkhtmltopdf.
pub fn pandoc_export_args(output_path: &str, to_format: &str) -> (r: Vec<String>)
    ensures
        r.deep_view() == seq![
            "-f"@,
            "markdown"@,
            "-t"@,
            to_format@,
            "--wrap=none"@,
            "-o"@,
            output_path@,
        ] + (if to_format@ == "pdf"@ {
            seq!["--pdf-engine=wkhtmltopdf"@]
        } else {
            Seq::empty()
        }),
{
    let mut r: Vec<String> = Vec::new();
    r.push(String::from_str("-f"));
    r.push(String::from_str("markdown"));
    r.push(String::from_str("-t"));
    r.push(String::from_str(to_format));
    r.push(String::from_str("--wrap=none"));
    r.push(String::from_str("-o"));
    r.push(String::from_str(output_path));
    if String::from_str(to_format) == String::from_str("pdf") {
        r.push(String::from_str("--pdf-engine=wkhtmltopdf"));
    }
    assert(r.deep_view() =~= seq![
        "-f"@,
        "markdown"@,
        "-t"@,
        to_format@,
        "--wrap=none"@,
        "-o"@,
        output_path@,
    ] + (if to_format@ == "pdf"@ {
        seq!["--pdf-engine=wkhtmltopdf"@]
    } else {
        Seq::empty()
    }));
    r
}

} // verus!
