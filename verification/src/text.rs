//! Small text operations on `str` and `String` that the rest of the
//! library builds on, and the test for a PDF file name.

use vstd::prelude::*;
use vstd::string::*;

verus! {

/// Appends one character to a string.
///
/// Trusted: calls `String::push`, whose documentation says it appends the
/// given `char` to the end of the string; the contract states just that.
#[verifier::external_body]
pub(crate) fn string_push(s: &mut String, c: char)
    ensures
        final(s)@ == old(s)@.push(c),
{
    s.push(c);
}

/// Compares two string slices.
///
/// Trusted: calls `<str as PartialEq>::eq`, which std documents as equality
/// of the two strings; the contract says the result is equality of the
/// character sequences.
#[verifier::external_body]
pub(crate) fn str_eq(a: &str, b: &str) -> (r: bool)
    ensures
        r == (a@ == b@),
{
    a == b
}

/// Case-insensitive comparison code of a character: ASCII upper-case letters
/// are taken to their lower-case counterparts, everything else stays.
pub open spec fn ascii_fold(c: char) -> u32 {
    if 'A' <= c && c <= 'Z' {
        (c as u32 + 32) as u32
    } else {
        c as u32
    }
}

/// `a` and `b` are equal when ASCII letters are compared without regard to
/// case (what `str::eq_ignore_ascii_case` computes).
pub open spec fn spec_eq_ignore_ascii_case(a: Seq<char>, b: Seq<char>) -> bool {
    &&& a.len() == b.len()
    &&& forall|i: int| 0 <= i < a.len() ==> ascii_fold(#[trigger] a[i]) == ascii_fold(b[i])
}

fn char_ascii_fold(c: char) -> (r: u32)
    ensures
        r == ascii_fold(c),
{
    if 'A' <= c && c <= 'Z' {
        c as u32 + 32
    } else {
        c as u32
    }
}

/// Compares two strings, ASCII letters without regard to case.
pub fn eq_ignore_ascii_case(a: &str, b: &str) -> (r: bool)
    ensures
        r == spec_eq_ignore_ascii_case(a@, b@),
{
    let n = a.unicode_len();
    if n != b.unicode_len() {
        return false;
    }
    let mut i: usize = 0;
    while i < n
        invariant
            n == a@.len(),
            n == b@.len(),
            i <= n,
            forall|j: int| 0 <= j < i ==> ascii_fold(#[trigger] a@[j]) == ascii_fold(b@[j]),
        decreases n - i,
    {
        let ca = a.get_char(i);
        let cb = b.get_char(i);
        if char_ascii_fold(ca) != char_ascii_fold(cb) {
            return false;
        }
        i = i + 1;
    }
    true
}

/// What `Path::extension` gives for a path written as the string `path`:
/// `None` where the last component has no extension, else the text after its
/// final dot.
pub uninterp spec fn path_extension_of(path: Seq<char>) -> Option<Seq<char>>;

/// The view of an optional string.
pub open spec fn opt_string_view(s: Option<String>) -> Option<Seq<char>> {
    match s {
        Some(s) => Some(s@),
        None => None,
    }
}

/// The extension of the last component of `path`.
///
/// Trusted: calls `std::path::Path::extension` on `Path::new(path)`. Its
/// result is a function of the path text alone, named `path_extension_of`;
/// the contract claims nothing more of it. An extension cut from a `&str`
/// is valid UTF-8, so the conversion back to a string keeps it whole.
#[verifier::external_body]
fn path_extension(path: &str) -> (r: Option<String>)
    ensures
        opt_string_view(r) == path_extension_of(path@),
{
    match std::path::Path::new(path).extension() {
        Some(extension) => match extension.to_str() {
            Some(text) => Some(text.to_owned()),
            None => None,
        },
        None => None,
    }
}

/// An extension names a PDF file when it is `pdf` in any ASCII case.
pub open spec fn spec_is_pdf_extension(extension: Option<Seq<char>>) -> bool {
    match extension {
        Some(e) => spec_eq_ignore_ascii_case(e, "pdf"@),
        None => false,
    }
}

/// Decides from an extension (as `Path::extension` gives it) whether the
/// file is a PDF.
pub fn is_pdf_extension(extension: Option<&str>) -> (r: bool)
    ensures
        r == spec_is_pdf_extension(
            match extension {
                Some(e) => Some(e@),
                None => None,
            },
        ),
{
    match extension {
        Some(e) => eq_ignore_ascii_case(e, "pdf"),
        None => false,
    }
}

/// Whether `path` names a PDF file, judged by its extension alone.
pub fn is_pdf_file(path: &str) -> (r: bool)
    ensures
        r == spec_is_pdf_extension(path_extension_of(path@)),
{
    let extension = path_extension(path);
    match &extension {
        Some(e) => is_pdf_extension(Some(e.as_str())),
        None => is_pdf_extension(None),
    }
}

/// The error of a path that does not exist.
pub open spec fn missing_path_message() -> Seq<char> {
    "PDF path does not exist."@
}

/// The error of a path that does not name a PDF file.
pub open spec fn not_pdf_message() -> Seq<char> {
    "Selected file is not a PDF."@
}

/// Checks a path before a document is loaded from it; `exists` is whether
/// the file system has something at `path`.
pub fn ensure_pdf_path(path: &str, exists: bool) -> (r: Result<(), String>)
    ensures
        match r {
            Ok(()) => exists && spec_is_pdf_extension(path_extension_of(path@)),
            Err(e) => if !exists {
                e@ == missing_path_message()
            } else {
                !spec_is_pdf_extension(path_extension_of(path@)) && e@ == not_pdf_message()
            },
        },
{
    if !exists {
        return Err(String::from_str("PDF path does not exist."));
    }
    if !is_pdf_file(path) {
        return Err(String::from_str("Selected file is not a PDF."));
    }
    Ok(())
}

/// The path to open at start-up: the candidate (from `PIDF_OPEN_PATH`) when
/// something exists there and it names a PDF file.
pub fn initial_pdf_path(candidate: Option<String>, candidate_exists: bool) -> (r: Option<String>)
    ensures
        r == (match candidate {
            Some(p) => if candidate_exists && spec_is_pdf_extension(path_extension_of(p@)) {
                Some(p)
            } else {
                None
            },
            None => None,
        }),
{
    match candidate {
        Some(p) => {
            if candidate_exists && is_pdf_file(p.as_str()) {
                Some(p)
            } else {
                None
            }
        },
        None => None,
    }
}

} // verus!
