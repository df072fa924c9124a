//! Choosing the documents among the files found under a directory.
//!
//! Walking the directory is the driver's work. It hands over every path it
//! met, at any depth, and gets back the markdown files in the order in
//! which they are served.

use crate::paths::{is_markdown_file, markdown_path};
use std::path::PathBuf;
use vstd::prelude::*;
use vstd::string::*;

verus! {

/// A path found under the scanned directory.
#[derive(Debug, PartialEq, Eq)]
pub struct ListedPath {
    /// The path as the walk met it.
    pub path: String,
    /// Whether the path leads to a regular file.
    pub is_file: bool,
}

/// The markdown files among `entries`, in the order of the listing: the
/// regular files whose extension marks a markdown document.
pub open spec fn markdown_files(entries: Seq<ListedPath>) -> Seq<Seq<char>>
    decreases entries.len(),
{
    if entries.len() == 0 {
        Seq::empty()
    } else {
        let entry = entries.last();
        let before = markdown_files(entries.drop_last());
        if entry.is_file && markdown_path(entry.path@) {
            before.push(entry.path@)
        } else {
            before
        }
    }
}

/// `paths` in the order of `std::path::PathBuf`, which compares paths
/// component by component; paths that compare equal keep the order they
/// came in.
pub uninterp spec fn path_sorted(paths: Seq<Seq<char>>) -> Seq<Seq<char>>;

/// Sorts paths with `slice::sort` on `PathBuf`s. Trusted: the result is the
/// one named by [`path_sorted`], and holds the same paths as often as they
/// were given.
#[verifier::external_body]
fn sort_paths(paths: Vec<String>) -> (sorted: Vec<String>)
    ensures
        sorted.deep_view() == path_sorted(paths.deep_view()),
        sorted.deep_view().to_multiset() == paths.deep_view().to_multiset(),
{
    let mut list: Vec<PathBuf> = paths.into_iter().map(PathBuf::from).collect();
    list.sort();
    list.into_iter().map(|p| p.to_string_lossy().into_owned()).collect()
}

/// The markdown files among `entries`, in the order of their listing.
pub fn select_markdown_files(entries: &Vec<ListedPath>) -> (found: Vec<String>)
    ensures
        found.deep_view() == markdown_files(entries@),
{
    let mut found: Vec<String> = Vec::new();
    let mut i: usize = 0;
    assert(entries@.take(0) =~= Seq::empty());
    while i < entries.len()
        invariant
            i <= entries@.len(),
            found.deep_view() == markdown_files(entries@.take(i as int)),
        decreases entries@.len() - i,
    {
        let entry = &entries[i];
        proof {
            assert(entries@.take(i + 1).drop_last() =~= entries@.take(i as int));
            assert(entries@.take(i + 1).last() == entries@[i as int]);
        }
        let ghost before = found.deep_view();
        if entry.is_file && is_markdown_file(entry.path.as_str()) {
            found.push(entry.path.clone());
            assert(found.deep_view() =~= before.push(entry.path@));
        }
        i += 1;
    }
    assert(entries@.take(i as int) =~= entries@);
    found
}

/// The markdown files found under a directory, sorted as paths. Every
/// regular file of the listing whose extension is `md` or `markdown`, in
/// any case, is among them, as often as it was listed, and nothing else is.
pub fn scan_markdown_files(entries: &Vec<ListedPath>) -> (md_files: Vec<String>)
    ensures
        md_files.deep_view() == path_sorted(markdown_files(entries@)),
        md_files.deep_view().to_multiset() == markdown_files(entries@).to_multiset(),
{
    sort_paths(select_markdown_files(entries))
}

} // verus!
