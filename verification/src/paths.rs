//! What a path says about the file behind it: whether it is a document, an
//! image, and which content type an image is served with.
//!
//! Paths are UTF-8 strings. How a path divides into components, where its
//! extension starts and how letters are put in lower case is the standard
//! library's business; this module decides what the answers mean.

use crate::text::{caseless_eq, eq_ignore_ascii_case, str_eq, utf8};
use vstd::prelude::*;
use vstd::string::*;

verus! {

/// The view of an optional string.
pub open spec fn opt_text(text: Option<String>) -> Option<Seq<char>> {
    match text {
        Some(t) => Some(t@),
        None => None,
    }
}

/// The extension of a path as `std::path::Path::extension` finds it: the
/// part of the final component after its last dot, `None` where that
/// component has no dot past its first character or the path has no final
/// component.
pub uninterp spec fn path_extension(path: Seq<char>) -> Option<Seq<char>>;

/// Calls `std::path::Path::extension`. Trusted: the result is the one named
/// by [`path_extension`], and a path without any dot has no extension.
#[verifier::external_body]
fn extension_of(path: &str) -> (ext: Option<String>)
    ensures
        opt_text(ext) == path_extension(path@),
        !path@.contains('.') ==> ext is None,
{
    std::path::Path::new(path).extension().and_then(|e| e.to_str()).map(|e| e.to_owned())
}

/// What is left of `path` once the leading `base` is taken off it, whole
/// components at a time, as `std::path::Path::strip_prefix` does it;
/// `None` where `base` does not lead `path`.
pub uninterp spec fn path_without_prefix(path: Seq<char>, base: Seq<char>) -> Option<Seq<char>>;

/// Calls `std::path::Path::strip_prefix`. Trusted: the result is the one
/// named by [`path_without_prefix`].
#[verifier::external_body]
fn strip_prefix(path: &str, base: &str) -> (rest: Option<String>)
    ensures
        opt_text(rest) == path_without_prefix(path@, base@),
{
    let rest = std::path::Path::new(path).strip_prefix(base).ok();
    rest.and_then(|p| p.to_str()).map(|p| p.to_owned())
}

/// Whether `path` lies under `base`: `base` leads it, whole components at a
/// time.
pub open spec fn path_under(path: Seq<char>, base: Seq<char>) -> bool {
    path_without_prefix(path, base) is Some
}

/// Whether `path` lies under `base`.
pub fn lies_under(path: &str, base: &str) -> (yes: bool)
    ensures
        yes == path_under(path@, base@),
{
    strip_prefix(path, base).is_some()
}

/// `name` joined onto `base` as `std::path::Path::join` does it: `base`,
/// a separator and `name`, or `name` alone where it is an absolute path.
pub uninterp spec fn path_joined(base: Seq<char>, name: Seq<char>) -> Seq<char>;

/// Calls `std::path::Path::join`. Trusted: the result is the one named by
/// [`path_joined`].
#[verifier::external_body]
fn join(base: &str, name: &str) -> (joined: String)
    ensures
        joined@ == path_joined(base@, name@),
{
    std::path::Path::new(base).join(name).to_string_lossy().into_owned()
}

/// The path of the file `name` below the directory `base_dir`.
pub fn path_below(base_dir: &str, name: &str) -> (path: String)
    ensures
        path@ == path_joined(base_dir@, name@),
{
    join(base_dir, name)
}

/// The key under which the file at `path` is tracked by a store rooted at
/// `base_dir`: the path relative to the root, and the path itself where it
/// does not lie under the root.
pub open spec fn key_of(path: Seq<char>, base_dir: Seq<char>) -> Seq<char> {
    match path_without_prefix(path, base_dir) {
        Some(rest) => rest,
        None => path,
    }
}

/// The key for `path`, given what is left of it below the root, if it lies
/// there.
pub fn key_from(relative: Option<String>, path: &str) -> (key: String)
    ensures
        key@ == match relative {
            Some(rest) => rest@,
            None => path@,
        },
{
    match relative {
        Some(rest) => rest,
        None => path.to_owned(),
    }
}

/// The key under which the file at `path` is tracked by a store rooted at
/// `base_dir`.
pub fn document_key(path: &str, base_dir: &str) -> (key: String)
    ensures
        key@ == key_of(path@, base_dir@),
{
    key_from(strip_prefix(path, base_dir), path)
}

/// The lower-case form of a text as `str::to_lowercase` gives it, by the
/// Unicode rules for lower case.
pub uninterp spec fn unicode_lowercase(text: Seq<char>) -> Seq<char>;

/// Calls `str::to_lowercase`. Trusted: the result is the one named by
/// [`unicode_lowercase`].
#[verifier::external_body]
pub(crate) fn to_lowercase(text: &str) -> (lower: String)
    ensures
        lower@ == unicode_lowercase(text@),
{
    text.to_lowercase()
}

/// Whether an extension marks a markdown document: `md` or `markdown`, in
/// any mix of upper and lower case.
pub open spec fn markdown_extension(ext: Seq<char>) -> bool {
    caseless_eq(utf8(ext), utf8("md"@)) || caseless_eq(utf8(ext), utf8("markdown"@))
}

/// Whether a path names a markdown document. Only its extension counts.
pub open spec fn markdown_path(path: Seq<char>) -> bool {
    match path_extension(path) {
        Some(ext) => markdown_extension(ext),
        None => false,
    }
}

/// Whether `ext`, a path's extension without the dot, marks a markdown
/// document.
pub fn is_markdown_extension(ext: &str) -> (yes: bool)
    ensures
        yes == markdown_extension(ext@),
{
    eq_ignore_ascii_case(ext, "md") || eq_ignore_ascii_case(ext, "markdown")
}

/// Whether `path` names a markdown document: its extension is `md` or
/// `markdown`, compared without regard to ASCII case. A path without an
/// extension never does.
pub fn is_markdown_file(path: &str) -> (yes: bool)
    ensures
        yes == markdown_path(path@),
        !path@.contains('.') ==> !yes,
{
    match extension_of(path) {
        Some(ext) => is_markdown_extension(ext.as_str()),
        None => false,
    }
}

/// Whether a lower-cased extension is one of the image types that are
/// served next to the documents.
pub open spec fn image_extension(lower: Seq<char>) -> bool {
    ||| lower == "png"@
    ||| lower == "jpg"@
    ||| lower == "jpeg"@
    ||| lower == "gif"@
    ||| lower == "svg"@
    ||| lower == "webp"@
    ||| lower == "bmp"@
    ||| lower == "ico"@
}

/// The extension that a path is judged by as an image: its extension in
/// lower case, the empty text where it has none.
pub open spec fn lowercase_extension(path: Seq<char>) -> Seq<char> {
    unicode_lowercase(
        match path_extension(path) {
            Some(ext) => ext,
            None => Seq::empty(),
        },
    )
}

/// Whether `lower`, an extension already in lower case, is a served image
/// type.
pub fn is_image_extension(lower: &str) -> (yes: bool)
    ensures
        yes == image_extension(lower@),
{
    str_eq(lower, "png") || str_eq(lower, "jpg") || str_eq(lower, "jpeg") || str_eq(lower, "gif")
        || str_eq(lower, "svg") || str_eq(lower, "webp") || str_eq(lower, "bmp") || str_eq(
        lower,
        "ico",
    )
}

/// The extension of `path` in lower case, empty where it has none.
fn lowercase_extension_of(path: &str) -> (lower: String)
    ensures
        lower@ == lowercase_extension(path@),
{
    match extension_of(path) {
        Some(ext) => to_lowercase(ext.as_str()),
        None => {
            proof {
                reveal_strlit("");
                assert(""@ =~= Seq::<char>::empty());
            }
            to_lowercase("")
        },
    }
}

/// Whether `file_path` names an image that is served next to the documents:
/// its extension, lower-cased, is one of `png`, `jpg`, `jpeg`, `gif`, `svg`,
/// `webp`, `bmp`, `ico`.
pub fn is_image_file(file_path: &str) -> (yes: bool)
    ensures
        yes == image_extension(lowercase_extension(file_path@)),
{
    let lower = lowercase_extension_of(file_path);
    is_image_extension(lower.as_str())
}

/// The content type that goes with a lower-cased extension.
pub open spec fn content_type_of(lower: Seq<char>) -> Seq<char> {
    if lower == "png"@ {
        "image/png"@
    } else if lower == "jpg"@ || lower == "jpeg"@ {
        "image/jpeg"@
    } else if lower == "gif"@ {
        "image/gif"@
    } else if lower == "svg"@ {
        "image/svg+xml"@
    } else if lower == "webp"@ {
        "image/webp"@
    } else if lower == "bmp"@ {
        "image/bmp"@
    } else if lower == "ico"@ {
        "image/x-icon"@
    } else {
        "application/octet-stream"@
    }
}

/// The content type for `lower`, an extension already in lower case.
pub fn content_type_for_extension(lower: &str) -> (content_type: String)
    ensures
        content_type@ == content_type_of(lower@),
{
    let name = if str_eq(lower, "png") {
        "image/png"
    } else if str_eq(lower, "jpg") || str_eq(lower, "jpeg") {
        "image/jpeg"
    } else if str_eq(lower, "gif") {
        "image/gif"
    } else if str_eq(lower, "svg") {
        "image/svg+xml"
    } else if str_eq(lower, "webp") {
        "image/webp"
    } else if str_eq(lower, "bmp") {
        "image/bmp"
    } else if str_eq(lower, "ico") {
        "image/x-icon"
    } else {
        "application/octet-stream"
    };
    name.to_owned()
}

/// The content type that the file at `file_path` is served with, by its
/// lower-cased extension; `application/octet-stream` for anything that is
/// not a known image type.
pub fn guess_image_content_type(file_path: &str) -> (content_type: String)
    ensures
        content_type@ == content_type_of(lowercase_extension(file_path@)),
{
    let lower = lowercase_extension_of(file_path);
    content_type_for_extension(lower.as_str())
}

} // verus!
