//! Where PDFium is looked for, and the error reported when no PDFium
//! library could be loaded.

use vstd::prelude::*;
use vstd::string::*;

verus! {

/// The file name of the PDFium library on this platform.
///
/// Trusted: calls `pdfium_render::prelude::Pdfium::pdfium_platform_library_name`,
/// which returns a name fixed by the platform the crate was built for. The
/// name depends on nothing that is passed in, so the contract states
/// nothing of it.
#[verifier::external_body]
fn platform_library_name() -> String {
    pdfium_render::prelude::Pdfium::pdfium_platform_library_name().to_string_lossy().into_owned()
}

/// The path components of the local places where the PDFium library named
/// `library_name` is looked for, in the order they are tried:
/// `pdfium/lib`, `src-tauri/pdfium/lib` and `../src-tauri/pdfium/lib`.
pub open spec fn spec_library_candidates(library_name: Seq<char>) -> Seq<Seq<Seq<char>>> {
    seq![
        seq!["pdfium"@, "lib"@, library_name],
        seq!["src-tauri"@, "pdfium"@, "lib"@, library_name],
        seq![".."@, "src-tauri"@, "pdfium"@, "lib"@, library_name],
    ]
}

/// The views of a list of paths, each a list of components.
pub open spec fn component_views(paths: Seq<Vec<String>>) -> Seq<Seq<Seq<char>>> {
    paths.map_values(|p: Vec<String>| p@.map_values(|c: String| c@))
}

/// The local places to look for a PDFium library of the given file name,
/// as lists of path components.
pub fn library_candidates(library_name: &str) -> (r: Vec<Vec<String>>)
    ensures
        component_views(r@) == spec_library_candidates(library_name@),
{
    let first = vec![String::from_str("pdfium"), String::from_str("lib"), String::from_str(library_name)];
    let second = vec![
        String::from_str("src-tauri"),
        String::from_str("pdfium"),
        String::from_str("lib"),
        String::from_str(library_name),
    ];
    let third = vec![
        String::from_str(".."),
        String::from_str("src-tauri"),
        String::from_str("pdfium"),
        String::from_str("lib"),
        String::from_str(library_name),
    ];
    let r = vec![first, second, third];
    assert(component_views(r@) =~= spec_library_candidates(library_name@)) by {
        assert(r@[0]@.map_values(|c: String| c@) =~= spec_library_candidates(library_name@)[0]);
        assert(r@[1]@.map_values(|c: String| c@) =~= spec_library_candidates(library_name@)[1]);
        assert(r@[2]@.map_values(|c: String| c@) =~= spec_library_candidates(library_name@)[2]);
    }
    r
}

/// The local places to look for this platform's PDFium library.
pub fn local_pdfium_library_candidates() -> (r: Vec<Vec<String>>)
    ensures
        exists|name: Seq<char>| component_views(r@) == spec_library_candidates(name),
{
    let name = platform_library_name();
    let r = library_candidates(name.as_str());
    assert(component_views(r@) == spec_library_candidates(name@));
    r
}

/// The texts of `parts` joined with `separator` between them.
pub open spec fn joined(parts: Seq<Seq<char>>, separator: Seq<char>) -> Seq<char>
    decreases parts.len(),
{
    if parts.len() == 0 {
        Seq::empty()
    } else if parts.len() == 1 {
        parts[0]
    } else {
        joined(parts.drop_last(), separator) + separator + parts.last()
    }
}

/// The views of a sequence of strings.
pub open spec fn string_views(parts: Seq<String>) -> Seq<Seq<char>> {
    parts.map_values(|s: String| s@)
}

/// The message after every local candidate (each described in
/// `local_errors`) and the system library failed to load; `system_error`
/// describes the last failure.
pub open spec fn spec_pdfium_load_error(local_errors: Seq<Seq<char>>, system_error: Seq<char>) -> Seq<char> {
    if local_errors.len() == 0 {
        "Failed to load system PDFium library: "@ + system_error
    } else {
        "Failed to load local PDFium library candidates ["@ + joined(local_errors, "; "@)
            + "] and failed to load system PDFium library: "@ + system_error
    }
}

/// Builds the message of a failed PDFium load.
pub fn pdfium_load_error(local_errors: &Vec<String>, system_error: &str) -> (r: String)
    ensures
        r@ == spec_pdfium_load_error(string_views(local_errors@), system_error@),
{
    if local_errors.len() == 0 {
        let mut message = String::from_str("Failed to load system PDFium library: ");
        message.append(system_error);
        return message;
    }
    let ghost parts = string_views(local_errors@);
    let mut list = String::new();
    let mut i: usize = 0;
    while i < local_errors.len()
        invariant
            parts == string_views(local_errors@),
            0 < local_errors@.len(),
            i <= local_errors@.len(),
            list@ == joined(parts.take(i as int), "; "@),
        decreases local_errors@.len() - i,
    {
        proof {
            let t = parts.take(i + 1);
            assert(t.drop_last() =~= parts.take(i as int));
            assert(t.last() == local_errors@[i as int]@);
        }
        if i > 0 {
            list.append("; ");
        } else {
            assert(parts.take(1) =~= seq![parts[0]]);
        }
        list.append(local_errors[i].as_str());
        i = i + 1;
    }
    assert(parts.take(local_errors@.len() as int) =~= parts);
    let mut message = String::from_str("Failed to load local PDFium library candidates [");
    message.append(list.as_str());
    message.append("] and failed to load system PDFium library: ");
    message.append(system_error);
    message
}

} // verus!
