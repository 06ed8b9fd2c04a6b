//! File paths, held as text.
//!
//! Paths are the library's strings; the three path operations it needs are
//! `std::path::Path`'s own, whose results are named here.

use vstd::prelude::*;
use std::path::Path;

verus! {

/// What `Path::file_stem` gives for a path: its file name without the final
/// extension, or `None` when the path has no file name.
pub uninterp spec fn file_stem(path: Seq<char>) -> Option<Seq<char>>;

/// What `Path::extension` gives for a path: the part of the file name after
/// its last `'.'`, or `None` when the file name has none (or only a leading one).
pub uninterp spec fn extension(path: Seq<char>) -> Option<Seq<char>>;

/// What `Path::join` gives for a base path and a relative path.
pub uninterp spec fn join(base: Seq<char>, rel: Seq<char>) -> Seq<char>;

/// `Path::file_stem`, converted to a string. The contract names the result.
#[verifier::external_body]
pub(crate) fn path_file_stem(path: &str) -> (r: Option<String>)
    ensures
        match r {
            Some(s) => file_stem(path@) == Some(s@),
            None => file_stem(path@) == None::<Seq<char>>,
        },
{
    Path::new(path).file_stem().and_then(|s| s.to_str()).map(|s| s.to_string())
}

/// `Path::extension`, converted to a string. The contract names the result.
#[verifier::external_body]
pub(crate) fn path_extension(path: &str) -> (r: Option<String>)
    ensures
        match r {
            Some(s) => extension(path@) == Some(s@),
            None => extension(path@) == None::<Seq<char>>,
        },
{
    Path::new(path).extension().and_then(|s| s.to_str()).map(|s| s.to_string())
}

/// `Path::join`, converted to a string (both inputs are UTF-8, so the
/// conversion loses nothing). The contract names the result.
#[verifier::external_body]
pub(crate) fn path_join(base: &str, rel: &str) -> (r: String)
    ensures
        r@ == join(base@, rel@),
{
    Path::new(base).join(rel).to_string_lossy().into_owned()
}

/// Whether a path names a markdown file: its extension is `md`.
pub open spec fn is_markdown_path(path: Seq<char>) -> bool {
    extension(path) == Some(seq!['m', 'd'])
}

/// Whether a path names a markdown file: its extension is `md`.
pub fn has_markdown_extension(path: &str) -> (b: bool)
    ensures
        b == is_markdown_path(path@),
{
    match path_extension(path) {
        Some(ext) => {
            let e = crate::text::chars_of(ext.as_str());
            let md = vec!['m', 'd'];
            assert(md@ == seq!['m', 'd']);
            crate::text::eq_chars(e.as_slice(), md.as_slice())
        },
        None => false,
    }
}

} // verus!
