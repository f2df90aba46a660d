//! The terminal text functions of the crust library that the views use:
//! SGR styling and display width.

use vstd::prelude::*;

verus! {

/// What `crust::style::coded(text, spec)` returns: `text` wrapped in the SGR
/// codes that `spec` ("fg,bg,attrs") names.
pub uninterp spec fn coded_text(text: Seq<char>, spec: Seq<char>) -> Seq<char>;

/// What `crust::display_width(s)` returns: the terminal cells `s` covers,
/// escape sequences left out.
pub uninterp spec fn display_width(s: Seq<char>) -> usize;

/// What `crust::truncate_ansi(s, w)` returns: `s` cut to `w` visible cells
/// with its escape sequences kept.
pub uninterp spec fn truncated(s: Seq<char>, w: usize) -> Seq<char>;

/// `text` in bold: the SGR code 1, then a reset.
pub open spec fn bold(text: Seq<char>) -> Seq<char> {
    "\x1b[1m"@ + text + "\x1b[0m"@
}

/// `text` in bold in 256-colour palette entry `colour` (its decimal
/// digits), then a reset.
pub open spec fn bold_colour(text: Seq<char>, colour: Seq<char>) -> Seq<char> {
    "\x1b[38;5;"@ + colour + ";1m"@ + text + "\x1b[0m"@
}

/// `crust::style::coded`. The contract claims that the result is the named
/// `coded_text` of the two arguments, and, for the three style specs the
/// views use, the exact result: the function turns a foreground number
/// into `38;5;N` and the attribute `b` into `1`, joins the codes with `;`
/// into one SGR sequence before the text and puts a reset after it; so
/// `,,b` gives `bold`, and `11,,b` and `14,,b` give `bold_colour` with 11
/// and 14. Of other specs only the name is stated.
#[verifier::external_body]
pub(crate) fn coded(text: &str, spec: &str) -> (r: String)
    ensures
        r@ == coded_text(text@, spec@),
        spec@ == ",,b"@ ==> r@ == bold(text@),
        spec@ == "11,,b"@ ==> r@ == bold_colour(text@, "11"@),
        spec@ == "14,,b"@ ==> r@ == bold_colour(text@, "14"@),
{
    crust::style::coded(text, spec)
}

/// `crust::display_width`. The contract claims that the result is the named
/// `display_width` of the text.
#[verifier::external_body]
pub(crate) fn width_of(s: &str) -> (r: usize)
    ensures
        r == display_width(s@),
{
    crust::display_width(s)
}

/// `crust::truncate_ansi`. The contract claims that the result is the named
/// `truncated` of the text and the width.
#[verifier::external_body]
pub(crate) fn truncate_ansi(s: &str, w: usize) -> (r: String)
    ensures
        r@ == truncated(s@, w),
{
    crust::truncate_ansi(s, w)
}

} // verus!
