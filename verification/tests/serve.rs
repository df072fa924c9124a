use mdserve::observe::{FileObservation, PathReport};
use mdserve::paths::{document_key, lies_under, path_below};
use mdserve::serve::{
    any_tag_matches, asset_access, has_mermaid, is_etag_match, next_port, route_for, AssetAccess,
    PortError, Route, MAX_PORT_ATTEMPTS,
};
use mdserve::scan::{scan_markdown_files, ListedPath};
use mdserve::store::MarkdownState;

#[test]
fn routes_follow_the_extension_of_the_path() {
    assert_eq!(route_for("test1.md"), Route::Document);
    assert_eq!(route_for("sub/dir/page.markdown"), Route::Document);
    assert_eq!(route_for("test2.MD"), Route::Document);
    assert_eq!(route_for("sub/Page.MarkDown"), Route::Document);
    assert_eq!(route_for(".md"), Route::NotFound);
    assert_eq!(route_for("test1.md.bak"), Route::NotFound);
    assert_eq!(route_for("test.png"), Route::Image);
    assert_eq!(route_for("subdir/test.PNG"), Route::Image);
    assert_eq!(route_for("a/b/deep.jpeg"), Route::Image);
    assert_eq!(route_for("secret.txt"), Route::NotFound);
    assert_eq!(route_for("unknown-route"), Route::NotFound);
    assert_eq!(route_for("md"), Route::NotFound);
    assert_eq!(route_for(""), Route::NotFound);
    assert_eq!(route_for("../../../etc/passwd"), Route::NotFound);
}

#[test]
fn every_key_that_is_tracked_from_a_scan_is_routed_as_a_document() {
    let entries: Vec<ListedPath> = ["/d/a.md", "/d/B.MD", "/d/sub/c.Markdown", "/d/x.txt"]
        .iter()
        .map(|path| ListedPath {
            path: path.to_string(),
            is_file: true,
        })
        .collect();
    let found = scan_markdown_files(&entries);
    assert_eq!(found.len(), 3);
    for path in found {
        let key = document_key(&path, "/d");
        assert_eq!(route_for(&key), Route::Document, "{key}");
    }
}

#[test]
fn mermaid_is_found_by_its_code_class() {
    assert!(has_mermaid(
        "<pre><code class=\"language-mermaid\">graph TD</code></pre>"
    ));
    assert!(has_mermaid("class=\"language-mermaid\""));
    assert!(!has_mermaid(
        "<pre><code class=\"language-javascript\">console.log</code></pre>"
    ));
    assert!(!has_mermaid("class=\"language-mermai"));
    assert!(!has_mermaid("language-mermaid"));
    assert!(!has_mermaid(""));
    assert!(has_mermaid(
        "é<code class=\"language-bash\"></code><code class=\"language-mermaid\">"
    ));
}

#[test]
fn assets_are_granted_under_the_root_only() {
    assert_eq!(
        asset_access(Some("/docs/img/test.png"), "/docs"),
        AssetAccess::Granted
    );
    assert_eq!(
        asset_access(Some("/etc/passwd"), "/docs"),
        AssetAccess::Denied
    );
    assert_eq!(
        asset_access(Some("/docs-other/test.png"), "/docs"),
        AssetAccess::Denied
    );
    assert_eq!(asset_access(None, "/docs"), AssetAccess::Missing);
    assert!(lies_under("/docs", "/docs"));
    assert!(!lies_under("/doc", "/docs"));
}

#[test]
fn paths_below_the_root_are_joined_by_components() {
    assert_eq!(path_below("/docs", "img/test.png"), "/docs/img/test.png");
    assert_eq!(path_below("/docs/", "test.png"), "/docs/test.png");
    assert_eq!(path_below("/docs", "/etc/passwd"), "/etc/passwd");
    assert_eq!(
        path_below("/docs", "../../../etc/passwd"),
        "/docs/../../../etc/passwd"
    );
}

#[test]
fn keys_are_paths_relative_to_the_root() {
    assert_eq!(document_key("/docs/a.md", "/docs"), "a.md");
    assert_eq!(document_key("/docs/sub/a.md", "/docs/"), "sub/a.md");
    assert_eq!(document_key("/other/a.md", "/docs"), "/other/a.md");
    assert_eq!(document_key("/docs2/a.md", "/docs"), "/docs2/a.md");
    assert_eq!(document_key("a.md", "/docs"), "a.md");
}

#[test]
fn etags_match_one_of_a_list() {
    let etag = "\"0.5.1\"";
    assert!(is_etag_match("\"0.5.1\"", etag));
    assert!(is_etag_match("\"a\", \"0.5.1\"", etag));
    assert!(is_etag_match("  \"0.5.1\"\t,\"b\"", etag));
    assert!(!is_etag_match("\"different-etag\"", etag));
    assert!(!is_etag_match("0.5.1", etag));
    assert!(!is_etag_match("", etag));
    assert!(!is_etag_match("\"0.5.1\" \"b\"", etag));
    assert!(is_etag_match(",", ""));
    assert!(any_tag_matches(
        &vec!["x".to_string(), " y ".to_string()],
        "y"
    ));
    assert!(!any_tag_matches(&Vec::new(), "y"));
}

#[test]
fn ports_are_tried_upwards_a_hundred_at_most() {
    assert_eq!(MAX_PORT_ATTEMPTS, 100);
    assert_eq!(next_port(3000, 3000), Ok(3001));
    assert_eq!(next_port(3000, 3098), Ok(3099));
    assert_eq!(
        next_port(3000, 3099),
        Err(PortError::NoneAvailable {
            first: 3000,
            last: 3099
        })
    );
    assert_eq!(next_port(65500, 65535), Err(PortError::RangeExhausted));
    assert_eq!(next_port(65535, 65535), Err(PortError::RangeExhausted));
    assert_eq!(next_port(65436, 65534), Ok(65535));
    assert_eq!(
        next_port(65435, 65534),
        Err(PortError::NoneAvailable {
            first: 65435,
            last: 65534
        })
    );
}

#[test]
fn the_first_document_is_the_smallest_key() {
    let file = |path: &str| PathReport {
        path: path.to_string(),
        canonical: Some(path.to_string()),
        exists: true,
        is_file: true,
        observed: FileObservation::Read {
            modified: 1,
            content: String::new(),
        },
    };
    let empty = MarkdownState::new("/docs".to_string(), Vec::new(), true).unwrap();
    assert_eq!(empty.first_filename(), None);
    let state = MarkdownState::new(
        "/docs".to_string(),
        vec![
            file("/docs/test2.markdown"),
            file("/docs/test1.md"),
            file("/docs/test3.md"),
        ],
        true,
    )
    .unwrap();
    assert_eq!(state.first_filename(), Some("test1.md".to_string()));
    assert_eq!(
        state.get_sorted_filenames(),
        vec![
            "test1.md".to_string(),
            "test2.markdown".to_string(),
            "test3.md".to_string()
        ]
    );
}
