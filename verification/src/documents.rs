//! The views of documents that an external converter turns into text:
//! word processor files through pandoc, PDF through pdftotext.

use vstd::prelude::*;
use crate::syntax::{markdown, markdown_output, markdown_safe, markdown_safe_text, plain, plain_output, ALL};
use crate::text::{append_str, chars_of, is_blank, string_of, trim};

verus! {

/// The notice shown when pandoc could not convert a document.
pub open spec fn pandoc_failed_text(e: Seq<char>) -> Seq<char> {
    "pandoc failed: "@ + e + "\n(install pandoc to view .docx/.odt)"@
}

/// What pandoc's non-blank markdown `md` may show as `out`: the markdown
/// highlighted on all its lines, or, when the markdown highlighter cannot
/// take it (see `markdown_safe_text`), highlighted as plain text.
pub open spec fn doc_view(md: Seq<char>, out: Seq<char>) -> bool {
    if markdown_safe_text(md) {
        markdown_output(md, ALL, out)
    } else {
        plain_output(md, ALL, out)
    }
}

/// The view of a word processor document from pandoc's markdown output:
/// the markdown highlighted (`doc_view`), a notice for an empty document,
/// or the failure with its error.
pub fn render_doc(output: Result<&str, &str>) -> (r: String)
    ensures
        output matches Ok(s) ==> (trim(s@).len() == 0 ==> r@ == "(empty document)"@),
        output matches Ok(s) ==> (trim(s@).len() > 0 ==> doc_view(s@, r@)),
        output matches Err(e) ==> r@ == pandoc_failed_text(e@),
{
    match output {
        Ok(s) => {
            let c = chars_of(s);
            if is_blank(&c) {
                string_of(&chars_of("(empty document)"))
            } else if markdown_safe(s) {
                markdown(s, ALL)
            } else {
                plain(s, ALL)
            }
        },
        Err(e) => {
            let mut out = chars_of("pandoc failed: ");
            append_str(&mut out, e);
            append_str(&mut out, "\n(install pandoc to view .docx/.odt)");
            assert(out@ =~= pandoc_failed_text(e@));
            string_of(&out)
        },
    }
}

/// The view of a PDF from pdftotext's output: the text, a notice when it
/// holds none (a scanned PDF), or the failure with its error.
pub open spec fn pdf_text(output: Result<Seq<char>, Seq<char>>) -> Seq<char> {
    match output {
        Ok(s) => if trim(s).len() == 0 {
            "(no extractable text \u{2014} scanned PDF?)"@
        } else {
            s
        },
        Err(e) => "pdftotext failed: "@ + e + "\n(install poppler-utils to view PDFs)"@,
    }
}

/// The view of a PDF from pdftotext's output.
pub fn render_pdf(output: Result<&str, &str>) -> (r: String)
    ensures
        r@ == pdf_text(
            match output {
                Ok(s) => Ok(s@),
                Err(e) => Err(e@),
            },
        ),
{
    match output {
        Ok(s) => {
            let c = chars_of(s);
            if is_blank(&c) {
                string_of(&chars_of("(no extractable text \u{2014} scanned PDF?)"))
            } else {
                string_of(&c)
            }
        },
        Err(e) => {
            let mut out = chars_of("pdftotext failed: ");
            append_str(&mut out, e);
            append_str(&mut out, "\n(install poppler-utils to view PDFs)");
            assert(out@ =~= "pdftotext failed: "@ + e@ + "\n(install poppler-utils to view PDFs)"@);
            string_of(&out)
        },
    }
}

} // verus!
