use mdserve::observe::{FileError, FileObservation, PathReport};
use mdserve::render::markdown_to_html;
use mdserve::store::MarkdownState;

fn read(modified: i128, content: &str) -> FileObservation {
    FileObservation::Read {
        modified,
        content: content.to_string(),
    }
}

fn file(path: &str, observed: FileObservation) -> PathReport {
    PathReport {
        path: path.to_string(),
        canonical: Some(path.to_string()),
        exists: true,
        is_file: true,
        observed,
    }
}

fn directory(files: Vec<PathReport>) -> MarkdownState {
    MarkdownState::new("/docs".to_string(), files, true).expect("all files were read")
}

#[test]
fn new_tracks_each_file_under_its_relative_key() {
    let state = directory(vec![
        file("/docs/b.md", read(10, "# B")),
        file("/docs/sub/a.markdown", read(20, "# A")),
    ]);
    assert_eq!(
        state.get_sorted_filenames(),
        vec!["b.md".to_string(), "sub/a.markdown".to_string()]
    );
    let b = state.get("b.md").expect("b.md is tracked");
    assert_eq!(b.path, "/docs/b.md");
    assert_eq!(b.last_modified, 10);
    assert_eq!(b.html, "<h1>B</h1>");
    assert!(state.show_navigation());
    assert_eq!(state.base_dir(), "/docs");
}

#[test]
fn new_keeps_the_whole_path_of_a_file_outside_the_root() {
    let state = directory(vec![file("/elsewhere/x.md", read(1, "x"))]);
    assert_eq!(state.get_sorted_filenames(), vec!["/elsewhere/x.md".to_string()]);
}

#[test]
fn new_falls_back_to_the_given_path_without_a_canonical_one() {
    let report = PathReport {
        path: "/docs/gone.md".to_string(),
        canonical: None,
        exists: false,
        is_file: false,
        observed: read(3, "gone"),
    };
    let state = directory(vec![report]);
    assert!(state.is_tracked("gone.md"));
    assert_eq!(state.get("gone.md").unwrap().path, "/docs/gone.md");
}

#[test]
fn new_lets_a_later_file_replace_an_earlier_one_with_the_same_key() {
    let state = directory(vec![
        file("/docs/a.md", read(1, "first")),
        file("/docs/a.md", read(2, "second")),
    ]);
    assert_eq!(state.get_sorted_filenames(), vec!["a.md".to_string()]);
    assert_eq!(state.get("a.md").unwrap().html, "<p>second</p>");
}

#[test]
fn new_fails_on_the_first_file_that_was_not_read() {
    let missing = MarkdownState::new(
        "/docs".to_string(),
        vec![
            file("/docs/a.md", read(1, "a")),
            file("/docs/b.md", FileObservation::MetadataFailed),
            file("/docs/c.md", FileObservation::Unread { modified: 4 }),
        ],
        false,
    );
    assert!(matches!(missing, Err(FileError::Metadata)));

    let unread = MarkdownState::new(
        "/docs".to_string(),
        vec![
            file("/docs/c.md", FileObservation::Unread { modified: 4 }),
            file("/docs/b.md", FileObservation::MetadataFailed),
        ],
        false,
    );
    assert!(matches!(unread, Err(FileError::Content)));
}

#[test]
fn new_over_no_files_is_empty() {
    let state = MarkdownState::new("/docs".to_string(), Vec::new(), false).unwrap();
    assert!(state.get_sorted_filenames().is_empty());
    assert!(!state.show_navigation());
    assert!(state.get("a.md").is_none());
}

#[test]
fn sorted_filenames_ascend_by_bytes() {
    let state = directory(vec![
        file("/docs/b.md", read(1, "")),
        file("/docs/a/z.md", read(1, "")),
        file("/docs/a.md", read(1, "")),
        file("/docs/B.md", read(1, "")),
        file("/docs/é.md", read(1, "")),
        file("/docs/a", read(1, "")),
    ]);
    let names = state.get_sorted_filenames();
    let mut expected = vec![
        "b.md".to_string(),
        "a/z.md".to_string(),
        "a.md".to_string(),
        "B.md".to_string(),
        "é.md".to_string(),
        "a".to_string(),
    ];
    expected.sort();
    assert_eq!(names, expected);
    assert_eq!(names[0], "B.md");
    assert_eq!(names[1], "a");
    assert_eq!(names[2], "a.md");
}

#[test]
fn refresh_replaces_time_and_html_when_the_file_is_newer() {
    let mut state = directory(vec![file("/docs/a.md", read(10, "old"))]);
    assert_eq!(state.refresh_file("a.md", &read(11, "new")), Ok(()));
    let a = state.get("a.md").unwrap();
    assert_eq!(a.last_modified, 11);
    assert_eq!(a.html, "<p>new</p>");
    assert_eq!(a.path, "/docs/a.md");
}

#[test]
fn refresh_keeps_the_document_when_the_file_is_not_newer() {
    let mut state = directory(vec![file("/docs/a.md", read(10, "old"))]);
    assert_eq!(state.refresh_file("a.md", &read(10, "same time")), Ok(()));
    assert_eq!(state.refresh_file("a.md", &read(9, "older")), Ok(()));
    assert_eq!(
        state.refresh_file("a.md", &FileObservation::Unread { modified: 10 }),
        Ok(())
    );
    let a = state.get("a.md").unwrap();
    assert_eq!(a.last_modified, 10);
    assert_eq!(a.html, "<p>old</p>");
}

#[test]
fn refresh_twice_is_refresh_once() {
    let mut state = directory(vec![file("/docs/a.md", read(10, "old"))]);
    let seen = read(12, "newer");
    assert_eq!(state.refresh_file("a.md", &seen), Ok(()));
    let (time, html) = {
        let a = state.get("a.md").unwrap();
        (a.last_modified, a.html.clone())
    };
    assert_eq!(state.refresh_file("a.md", &seen), Ok(()));
    let a = state.get("a.md").unwrap();
    assert_eq!(a.last_modified, time);
    assert_eq!(a.html, html);
}

#[test]
fn refresh_reports_a_failed_observation_and_keeps_the_document() {
    let mut state = directory(vec![file("/docs/a.md", read(10, "old"))]);
    assert_eq!(
        state.refresh_file("a.md", &FileObservation::MetadataFailed),
        Err(FileError::Metadata)
    );
    assert_eq!(
        state.refresh_file("a.md", &FileObservation::Unread { modified: 11 }),
        Err(FileError::Content)
    );
    let a = state.get("a.md").unwrap();
    assert_eq!(a.last_modified, 10);
    assert_eq!(a.html, "<p>old</p>");
}

#[test]
fn refresh_of_an_unknown_key_does_nothing() {
    let mut state = directory(vec![file("/docs/a.md", read(10, "old"))]);
    assert_eq!(state.refresh_file("b.md", &read(99, "b")), Ok(()));
    assert_eq!(
        state.refresh_file("b.md", &FileObservation::MetadataFailed),
        Ok(())
    );
    assert_eq!(state.get_sorted_filenames(), vec!["a.md".to_string()]);
    assert!(state.get("b.md").is_none());
}

#[test]
fn is_stale_compares_with_the_stored_time() {
    let state = directory(vec![file("/docs/a.md", read(-5, "before the epoch"))]);
    assert!(state.is_stale("a.md", -4));
    assert!(!state.is_stale("a.md", -5));
    assert!(!state.is_stale("a.md", -6));
    assert!(!state.is_stale("b.md", 100));
}

#[test]
fn add_takes_a_new_file_in_directory_mode() {
    let mut state = directory(vec![file("/docs/a.md", read(10, "a"))]);
    assert_eq!(
        state.add_tracked_file(&file("/docs/n/b.md", read(7, "*b*"))),
        Ok(())
    );
    assert_eq!(
        state.get_sorted_filenames(),
        vec!["a.md".to_string(), "n/b.md".to_string()]
    );
    let b = state.get("n/b.md").unwrap();
    assert_eq!(b.path, "/docs/n/b.md");
    assert_eq!(b.last_modified, 7);
    assert_eq!(b.html, "<p><em>b</em></p>");
}

#[test]
fn add_leaves_a_tracked_file_alone() {
    let mut state = directory(vec![file("/docs/a.md", read(10, "a"))]);
    assert_eq!(
        state.add_tracked_file(&file("/docs/a.md", read(50, "other"))),
        Ok(())
    );
    assert_eq!(
        state.add_tracked_file(&file("/docs/a.md", FileObservation::MetadataFailed)),
        Ok(())
    );
    let a = state.get("a.md").unwrap();
    assert_eq!(a.last_modified, 10);
    assert_eq!(a.html, "<p>a</p>");
    assert_eq!(state.get_sorted_filenames().len(), 1);
}

#[test]
fn add_reports_a_failed_observation() {
    let mut state = directory(Vec::new());
    assert_eq!(
        state.add_tracked_file(&file("/docs/a.md", FileObservation::MetadataFailed)),
        Err(FileError::Metadata)
    );
    assert_eq!(
        state.add_tracked_file(&file("/docs/a.md", FileObservation::Unread { modified: 1 })),
        Err(FileError::Content)
    );
    assert!(state.get_sorted_filenames().is_empty());
}

#[test]
fn add_keys_a_file_by_its_canonical_path() {
    let mut state = directory(vec![file("/docs/real/a.md", read(10, "a"))]);
    let by_link = PathReport {
        path: "/docs/link/a.md".to_string(),
        canonical: Some("/docs/real/a.md".to_string()),
        exists: true,
        is_file: true,
        observed: read(20, "by the link"),
    };
    assert_eq!(state.add_tracked_file(&by_link), Ok(()));
    assert_eq!(state.get_sorted_filenames(), vec!["real/a.md".to_string()]);
    assert_eq!(state.get("real/a.md").unwrap().html, "<p>a</p>");

    let new_by_link = PathReport {
        path: "/docs/./link/b.md".to_string(),
        canonical: Some("/docs/real/b.md".to_string()),
        exists: true,
        is_file: true,
        observed: read(20, "b"),
    };
    assert_eq!(state.add_tracked_file(&new_by_link), Ok(()));
    assert_eq!(
        state.get_sorted_filenames(),
        vec!["real/a.md".to_string(), "real/b.md".to_string()]
    );
    assert_eq!(state.get("real/b.md").unwrap().path, "/docs/real/b.md");
    assert!(!state.is_tracked("link/b.md"));

    let unresolved = PathReport {
        path: "/docs/c.md".to_string(),
        canonical: None,
        exists: true,
        is_file: true,
        observed: read(5, "c"),
    };
    assert_eq!(state.add_tracked_file(&unresolved), Ok(()));
    assert!(state.is_tracked("c.md"));
}

#[test]
fn add_is_ignored_in_single_file_mode() {
    let mut state = MarkdownState::new(
        "/docs".to_string(),
        vec![file("/docs/a.md", read(10, "a"))],
        false,
    )
    .unwrap();
    assert_eq!(
        state.add_tracked_file(&file("/docs/b.md", read(1, "b"))),
        Ok(())
    );
    assert_eq!(
        state.add_tracked_file(&file("/docs/c.md", FileObservation::MetadataFailed)),
        Ok(())
    );
    assert_eq!(state.get_sorted_filenames(), vec!["a.md".to_string()]);
}

#[test]
fn rendering_is_github_flavoured_with_raw_html_and_front_matter() {
    assert_eq!(markdown_to_html("~gone~"), "<p><del>gone</del></p>");
    assert_eq!(
        markdown_to_html("<div class=\"x\">\n\n**bold**\n\n</div>"),
        "<div class=\"x\">\n<p><strong>bold</strong></p>\n</div>"
    );
    assert_eq!(
        markdown_to_html("---\ntitle: Test Post\n---\n\n# Test Post\n"),
        "<h1>Test Post</h1>\n"
    );
    assert_eq!(
        markdown_to_html("+++\ntitle = \"Test Post\"\n+++\n\n# Test Post\n"),
        "<h1>Test Post</h1>\n"
    );
    assert_eq!(markdown_to_html(""), "");
}
