//! Rendering of markdown text to HTML.
//!
//! The conversion itself is the `markdown` crate's. This module fixes the
//! configuration it is called with and what stands in for a document that
//! the crate refuses.

use vstd::prelude::*;
use vstd::string::*;

verus! {

/// The `markdown` crate's report of a document it could not compile.
#[verifier::external_type_specification]
#[verifier::external_body]
pub struct ExMessage(markdown::message::Message);

/// The HTML that the `markdown` crate compiles `content` to under its GitHub
/// flavoured options with raw HTML passed through or not
/// (`allow_dangerous_html`) and a leading front matter block recognised or
/// not (`frontmatter`); `None` where the crate reports an error instead.
pub uninterp spec fn gfm_html(
    content: Seq<char>,
    allow_dangerous_html: bool,
    frontmatter: bool,
) -> Option<Seq<char>>;

/// Calls `markdown::to_html_with_options` with `markdown::Options::gfm()`,
/// in which the two switches are set as given. Trusted: the outcome is the
/// one named by [`gfm_html`], which says only that the crate computes it
/// from these three arguments and nothing else.
#[verifier::external_body]
fn to_html_gfm(content: &str, allow_dangerous_html: bool, frontmatter: bool) -> (out: Result<
    String,
    markdown::message::Message,
>)
    ensures
        out matches Ok(html) ==> gfm_html(content@, allow_dangerous_html, frontmatter) == Some(
            html@,
        ),
        out is Err ==> gfm_html(content@, allow_dangerous_html, frontmatter) is None,
{
    let mut options = markdown::Options::gfm();
    options.compile.allow_dangerous_html = allow_dangerous_html;
    options.parse.constructs.frontmatter = frontmatter;
    markdown::to_html_with_options(content, &options)
}

/// The text shown in place of a document that could not be compiled.
pub open spec fn error_placeholder() -> Seq<char> {
    "Error parsing markdown"@
}

/// What is served for a compilation outcome: the HTML where there is one,
/// the placeholder otherwise.
pub open spec fn html_or_placeholder(compiled: Option<Seq<char>>) -> Seq<char> {
    match compiled {
        Some(html) => html,
        None => error_placeholder(),
    }
}

/// The artifact of a document: its text compiled as GitHub flavoured
/// markdown, raw HTML passed through and front matter left out.
pub open spec fn rendered(content: Seq<char>) -> Seq<char> {
    html_or_placeholder(gfm_html(content, true, true))
}

/// Turns a compilation outcome into what is served.
pub fn artifact_of(compiled: Option<String>) -> (html: String)
    ensures
        html@ == html_or_placeholder(
            match compiled {
                Some(h) => Some(h@),
                None => None,
            },
        ),
{
    match compiled {
        Some(h) => h,
        None => "Error parsing markdown".to_owned(),
    }
}

/// Renders markdown text to the HTML artifact that is served for it. Never
/// fails: a document that cannot be compiled renders as the placeholder.
pub fn markdown_to_html(content: &str) -> (html: String)
    ensures
        html@ == rendered(content@),
{
    let compiled = match to_html_gfm(content, true, true) {
        Ok(h) => Some(h),
        Err(_) => None,
    };
    artifact_of(compiled)
}

} // verus!
