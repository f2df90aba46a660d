//! The extension of a file path, as `std::path::Path` reads it.

use vstd::prelude::*;
use crate::text::{chars_of, lower, string_of, to_lower};

verus! {

/// What `Path::extension` gives for the path spelled by the given
/// characters: the part of the final file name after its last `.`, or
/// nothing when the name has no `.` beyond a leading one.
pub uninterp spec fn path_extension(path: Seq<char>) -> Option<Seq<char>>;

/// `std::path::Path::extension`. The contract claims only that the result
/// is the named `path_extension` of the path; the extension of a `&str`
/// path is always valid UTF-8, so the conversion back to a string never
/// loses it.
#[verifier::external_body]
fn file_extension(path: &str) -> (r: Option<String>)
    ensures
        match r {
            Some(e) => path_extension(path@) == Some(e@),
            None => path_extension(path@) is None,
        },
{
    std::path::Path::new(path).extension().and_then(|e| e.to_str()).map(|e| e.to_string())
}

/// The lowercase extension of a path, empty when it has none.
pub open spec fn ext_of(path: Seq<char>) -> Seq<char> {
    match path_extension(path) {
        Some(e) => lower(e),
        None => seq![],
    }
}

/// The extension of `path` in ASCII lowercase, or the empty string.
pub fn ext(path: &str) -> (r: String)
    ensures
        r@ == ext_of(path@),
{
    let e = ext_chars(path);
    string_of(&e)
}

/// The characters of `ext(path)`.
pub fn ext_chars(path: &str) -> (r: Vec<char>)
    ensures
        r@ == ext_of(path@),
{
    match file_extension(path) {
        Some(e) => {
            let cs = chars_of(e.as_str());
            to_lower(&cs)
        },
        None => Vec::new(),
    }
}

} // verus!
