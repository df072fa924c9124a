//! Decisions of the serving side: what a request path asks for, whether a
//! file may be handed out, whether a cached script is still good, and which
//! port to try next.

use crate::paths::{
    image_extension, is_image_file, is_markdown_file, lies_under, lowercase_extension,
    markdown_path, path_under,
};
use crate::text::{bytes_contain, contains, parts, split, str_eq, trim, trimmed, utf8};
use vstd::prelude::*;
use vstd::string::*;

verus! {

/// What a request path asks for.
#[derive(Clone, Copy, Debug, PartialEq, Eq, Structural)]
pub enum Route {
    /// A document, by its key.
    Document,
    /// An image below the root.
    Image,
    /// Nothing that is served.
    NotFound,
}

/// What a request path asks for: a document where it names a markdown
/// file, by the rule that decides which files are tracked; an image where
/// its extension is one of the image types; nothing otherwise.
pub open spec fn route_of(filepath: Seq<char>) -> Route {
    if markdown_path(filepath) {
        Route::Document
    } else if image_extension(lowercase_extension(filepath)) {
        Route::Image
    } else {
        Route::NotFound
    }
}

/// Decides what the request path `filepath` asks for.
pub fn route_for(filepath: &str) -> (route: Route)
    ensures
        route == route_of(filepath@),
{
    if is_markdown_file(filepath) {
        Route::Document
    } else if is_image_file(filepath) {
        Route::Image
    } else {
        Route::NotFound
    }
}

/// Whether rendered HTML holds a mermaid diagram: a code block of the
/// language `mermaid`.
pub open spec fn shows_mermaid(html: Seq<char>) -> bool {
    bytes_contain(utf8(html), utf8("class=\"language-mermaid\""@))
}

/// Whether the page for `html` needs the mermaid script.
pub fn has_mermaid(html: &str) -> (yes: bool)
    ensures
        yes == shows_mermaid(html@),
{
    contains(html, "class=\"language-mermaid\"")
}

/// Whether a file that was asked for may be handed out.
#[derive(Clone, Copy, Debug, PartialEq, Eq, Structural)]
pub enum AssetAccess {
    /// The file lies under the root.
    Granted,
    /// The path leads out of the root.
    Denied,
    /// The path leads nowhere.
    Missing,
}

/// Whether the file that a request resolved to may be handed out:
/// `canonical` is the canonical form of the requested path, `None` where
/// it could not be resolved. Only what lies under `base_dir` is granted.
pub open spec fn asset_access_of(canonical: Option<Seq<char>>, base_dir: Seq<char>) -> AssetAccess {
    match canonical {
        None => AssetAccess::Missing,
        Some(path) => if path_under(path, base_dir) {
            AssetAccess::Granted
        } else {
            AssetAccess::Denied
        },
    }
}

/// Decides whether the file that a request resolved to may be handed out.
pub fn asset_access(canonical: Option<&str>, base_dir: &str) -> (access: AssetAccess)
    ensures
        access == asset_access_of(
            match canonical {
                Some(path) => Some(path@),
                None => None,
            },
            base_dir@,
        ),
{
    match canonical {
        None => AssetAccess::Missing,
        Some(path) => if lies_under(path, base_dir) {
            AssetAccess::Granted
        } else {
            AssetAccess::Denied
        },
    }
}

/// Whether one of `tags`, white space at its ends apart, is `etag`.
pub open spec fn tags_hold(tags: Seq<Seq<char>>, etag: Seq<char>) -> bool {
    exists|i: int| 0 <= i < tags.len() && trimmed(#[trigger] tags[i]) == etag
}

/// Whether one of `tags`, white space at its ends apart, is `etag`.
pub fn any_tag_matches(tags: &Vec<String>, etag: &str) -> (found: bool)
    ensures
        found == tags_hold(tags.deep_view(), etag@),
{
    let mut i: usize = 0;
    while i < tags.len()
        invariant
            i <= tags@.len(),
            forall|k: int| 0 <= k < i ==> trimmed(#[trigger] tags.deep_view()[k]) != etag@,
        decreases tags@.len() - i,
    {
        let tag = trim(tags[i].as_str());
        assert(tags.deep_view()[i as int] == tags@[i as int]@);
        if str_eq(tag.as_str(), etag) {
            return true;
        }
        i += 1;
    }
    false
}

/// Whether the entity tags that a client sent in `if_none_match`, a list
/// separated by commas, name `etag`: what the client holds is then still
/// good.
pub fn is_etag_match(if_none_match: &str, etag: &str) -> (found: bool)
    ensures
        found == tags_hold(parts(if_none_match@, ','), etag@),
{
    let tags = split(if_none_match, ',');
    any_tag_matches(&tags, etag)
}

/// How many ports are tried, from the one asked for upwards, before the
/// search for a free one is given up.
pub const MAX_PORT_ATTEMPTS: u16 = 100;

/// Why no further port is tried.
#[derive(Clone, Copy, Debug, PartialEq, Eq, Structural)]
pub enum PortError {
    /// The port just tried was the last there is.
    RangeExhausted,
    /// All the ports from `first` to `last` were tried and are in use.
    NoneAvailable { first: u16, last: u16 },
}

/// The port to try after `port` was found in use, in a search that began
/// at `start_port`.
pub open spec fn port_after(start_port: u16, port: u16) -> Result<u16, PortError> {
    if port == u16::MAX {
        Err(PortError::RangeExhausted)
    } else if port + 1 - start_port >= MAX_PORT_ATTEMPTS {
        Err(PortError::NoneAvailable { first: start_port, last: port })
    } else {
        Ok((port + 1) as u16)
    }
}

/// Picks the port to try after `port` was found in use: the next one,
/// unless there is none or the search that began at `start_port` has
/// tried its share.
pub fn next_port(start_port: u16, port: u16) -> (next: Result<u16, PortError>)
    requires
        start_port <= port,
    ensures
        next == port_after(start_port, port),
{
    if port == u16::MAX {
        return Err(PortError::RangeExhausted);
    }
    let next = port + 1;
    if next - start_port >= MAX_PORT_ATTEMPTS {
        Err(PortError::NoneAvailable { first: start_port, last: port })
    } else {
        Ok(next)
    }
}

} // verus!
