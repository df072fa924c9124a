use mdserve::broadcast::ServerMessage;
use mdserve::observe::{FileObservation, PathReport};
use mdserve::store::MarkdownState;
use mdserve::watch::{
    apply_operation, classify, classify_path, content_wanted, handle_file_event,
    handle_markdown_file_change, EventKind, FileEvent, Operation, RenameMode,
};
use tokio::sync::broadcast::error::TryRecvError;

fn read(modified: i128, content: &str) -> FileObservation {
    FileObservation::Read {
        modified,
        content: content.to_string(),
    }
}

fn seen(path: &str, observed: FileObservation) -> PathReport {
    PathReport {
        path: path.to_string(),
        canonical: Some(path.to_string()),
        exists: true,
        is_file: true,
        observed,
    }
}

fn gone(path: &str) -> PathReport {
    PathReport {
        path: path.to_string(),
        canonical: None,
        exists: false,
        is_file: false,
        observed: FileObservation::MetadataFailed,
    }
}

fn event(kind: EventKind, paths: Vec<PathReport>) -> FileEvent {
    FileEvent { kind, paths }
}

fn store(files: Vec<PathReport>, directory: bool) -> MarkdownState {
    MarkdownState::new("/docs".to_string(), files, directory).unwrap()
}

fn html(state: &MarkdownState, key: &str) -> String {
    state.get(key).expect("the document is tracked").html.clone()
}

fn kind_of(op: &Operation) -> &'static str {
    match op {
        Operation::ContentChanged(_) => "changed",
        Operation::Created(_) => "created",
        Operation::AssetChanged(_) => "asset",
        Operation::Ignore => "ignore",
    }
}

fn path_of(op: &Operation) -> Option<&str> {
    match op {
        Operation::ContentChanged(p) | Operation::Created(p) | Operation::AssetChanged(p) => {
            Some(p.as_str())
        }
        Operation::Ignore => None,
    }
}

#[test]
fn plain_events_on_documents_classify_by_kind() {
    let report = seen("/docs/a.md", read(1, "a"));
    assert_eq!(kind_of(&classify_path(EventKind::Create, 1, 0, &report)), "created");
    assert_eq!(
        kind_of(&classify_path(EventKind::ModifyData, 1, 0, &report)),
        "changed"
    );
    assert_eq!(kind_of(&classify_path(EventKind::Remove, 1, 0, &report)), "ignore");
    assert_eq!(
        kind_of(&classify_path(EventKind::ModifyOther, 1, 0, &report)),
        "ignore"
    );
    assert_eq!(kind_of(&classify_path(EventKind::Other, 1, 0, &report)), "ignore");
    let op = classify_path(EventKind::Create, 1, 0, &report);
    assert_eq!(path_of(&op), Some("/docs/a.md"));
}

#[test]
fn extension_case_does_not_matter_to_classification() {
    for name in ["/docs/a.MD", "/docs/a.Markdown", "/docs/a.mD", "/docs/a.MARKDOWN"] {
        let report = seen(name, read(1, "a"));
        assert_eq!(kind_of(&classify_path(EventKind::Create, 1, 0, &report)), "created");
    }
    for name in ["/docs/a.txt", "/docs/md", "/docs/a.md~", "/docs/a.md.bak", "/docs/README"] {
        let report = seen(name, read(1, "a"));
        assert_eq!(kind_of(&classify_path(EventKind::Create, 1, 0, &report)), "ignore");
    }
}

#[test]
fn rename_with_both_names_classifies_the_new_one() {
    let renamed = event(
        EventKind::ModifyName(RenameMode::Both),
        vec![gone("/docs/a.md.tmp"), seen("/docs/a.md", read(2, "a"))],
    );
    let ops = classify(&renamed);
    assert_eq!(ops.len(), 2);
    assert_eq!(kind_of(&ops[0]), "ignore");
    assert_eq!(kind_of(&ops[1]), "changed");
    assert_eq!(path_of(&ops[1]), Some("/docs/a.md"));

    let away = event(
        EventKind::ModifyName(RenameMode::Both),
        vec![gone("/docs/a.md"), seen("/docs/a.md~", read(2, "a"))],
    );
    let ops = classify(&away);
    assert_eq!(kind_of(&ops[0]), "ignore");
    assert_eq!(kind_of(&ops[1]), "ignore");

    let lone = event(
        EventKind::ModifyName(RenameMode::Both),
        vec![seen("/docs/a.md", read(2, "a"))],
    );
    assert_eq!(kind_of(&classify(&lone)[0]), "ignore");

    let three = event(
        EventKind::ModifyName(RenameMode::Both),
        vec![
            seen("/docs/a.md", read(2, "a")),
            seen("/docs/b.md", read(2, "b")),
            seen("/docs/c.md", read(2, "c")),
        ],
    );
    assert!(classify(&three).iter().all(|op| kind_of(op) == "ignore"));
}

#[test]
fn rename_sides_classify_by_what_they_show() {
    let report = seen("/docs/a.md", read(1, "a"));
    assert_eq!(
        kind_of(&classify_path(EventKind::ModifyName(RenameMode::From), 1, 0, &report)),
        "ignore"
    );
    assert_eq!(
        kind_of(&classify_path(EventKind::ModifyName(RenameMode::To), 1, 0, &report)),
        "changed"
    );
    assert_eq!(
        kind_of(&classify_path(EventKind::ModifyName(RenameMode::To), 2, 1, &report)),
        "ignore"
    );
    assert_eq!(
        kind_of(&classify_path(EventKind::ModifyName(RenameMode::Other), 1, 0, &report)),
        "ignore"
    );
    assert_eq!(
        kind_of(&classify_path(EventKind::ModifyName(RenameMode::Any), 1, 0, &report)),
        "changed"
    );
    assert_eq!(
        kind_of(&classify_path(
            EventKind::ModifyName(RenameMode::Any),
            1,
            0,
            &gone("/docs/a.md")
        )),
        "ignore"
    );
    assert_eq!(
        kind_of(&classify_path(
            EventKind::ModifyName(RenameMode::To),
            1,
            0,
            &seen("/docs/a.txt", read(1, "a"))
        )),
        "ignore"
    );
}

#[test]
fn images_that_change_call_for_a_reload() {
    let image = seen("/docs/pic.PNG", FileObservation::Unread { modified: 1 });
    for kind in [
        EventKind::Create,
        EventKind::ModifyData,
        EventKind::ModifyOther,
        EventKind::Remove,
    ] {
        assert_eq!(kind_of(&classify_path(kind, 1, 0, &image)), "asset");
    }
    assert_eq!(kind_of(&classify_path(EventKind::Other, 1, 0, &image)), "ignore");
    assert_eq!(
        kind_of(&classify_path(EventKind::ModifyName(RenameMode::To), 1, 0, &image)),
        "ignore"
    );
    let mut directory = seen("/docs/pics.png", FileObservation::Unread { modified: 1 });
    directory.is_file = false;
    assert_eq!(
        kind_of(&classify_path(EventKind::Create, 1, 0, &directory)),
        "ignore"
    );
    assert_eq!(
        kind_of(&classify_path(EventKind::Remove, 1, 0, &gone("/docs/pic.png"))),
        "asset"
    );
    assert_eq!(
        kind_of(&classify_path(EventKind::Create, 1, 0, &gone("/docs/pic.png"))),
        "ignore"
    );
    assert_eq!(
        kind_of(&classify_path(EventKind::Remove, 1, 0, &gone("/docs/notes.txt"))),
        "ignore"
    );
}

#[test]
fn the_removal_of_an_image_reloads_and_leaves_the_store_alone() {
    let mut state = store(vec![seen("/docs/a.md", read(1, "a"))], true);
    let mut viewer = state.subscribe();
    let removed = event(EventKind::Remove, vec![gone("/docs/img/pic.png")]);
    assert_eq!(handle_file_event(&removed, &mut state), 1);
    assert_eq!(viewer.try_recv(), Ok(ServerMessage::Reload));
    assert_eq!(viewer.try_recv(), Err(TryRecvError::Empty));
    assert_eq!(state.get_sorted_filenames(), vec!["a.md".to_string()]);
    assert_eq!(html(&state, "a.md"), "<p>a</p>");
}

#[test]
fn a_file_that_arrives_by_another_route_is_the_same_document() {
    let mut state = store(Vec::new(), true);
    let by_link = PathReport {
        path: "/docs/link/a.md".to_string(),
        canonical: Some("/docs/real/a.md".to_string()),
        exists: true,
        is_file: true,
        observed: read(1, "one"),
    };
    let created = event(EventKind::Create, vec![by_link]);
    assert_eq!(handle_file_event(&created, &mut state), 1);
    assert_eq!(state.get_sorted_filenames(), vec!["real/a.md".to_string()]);
    let direct = event(
        EventKind::ModifyData,
        vec![seen("/docs/real/a.md", read(2, "two"))],
    );
    assert_eq!(handle_file_event(&direct, &mut state), 1);
    assert_eq!(state.get_sorted_filenames(), vec!["real/a.md".to_string()]);
    assert_eq!(html(&state, "real/a.md"), "<p>two</p>");
    assert_eq!(state.get("real/a.md").unwrap().path, "/docs/real/a.md");
}

#[test]
fn a_change_to_a_tracked_document_refreshes_it_and_reloads() {
    let mut state = store(vec![seen("/docs/a.md", read(1, "old"))], false);
    let mut viewer = state.subscribe();
    let published = handle_markdown_file_change(&seen("/docs/a.md", read(2, "new")), &mut state);
    assert!(published);
    assert_eq!(html(&state, "a.md"), "<p>new</p>");
    assert_eq!(viewer.try_recv(), Ok(ServerMessage::Reload));
    assert_eq!(viewer.try_recv(), Err(TryRecvError::Empty));
}

#[test]
fn a_change_that_cannot_be_read_sends_nothing() {
    let mut state = store(vec![seen("/docs/a.md", read(1, "old"))], true);
    let mut viewer = state.subscribe();
    assert!(!handle_markdown_file_change(
        &seen("/docs/a.md", FileObservation::MetadataFailed),
        &mut state
    ));
    assert!(!handle_markdown_file_change(
        &seen("/docs/a.md", FileObservation::Unread { modified: 5 }),
        &mut state
    ));
    assert!(!handle_markdown_file_change(
        &seen("/docs/b.md", FileObservation::MetadataFailed),
        &mut state
    ));
    assert!(!handle_markdown_file_change(
        &seen("/docs/notes.txt", read(9, "text")),
        &mut state
    ));
    assert_eq!(html(&state, "a.md"), "<p>old</p>");
    assert_eq!(state.get_sorted_filenames(), vec!["a.md".to_string()]);
    assert_eq!(viewer.try_recv(), Err(TryRecvError::Empty));
}

#[test]
fn an_unchanged_tracked_document_still_reloads() {
    let mut state = store(vec![seen("/docs/a.md", read(5, "old"))], false);
    let mut viewer = state.subscribe();
    assert!(handle_markdown_file_change(
        &seen("/docs/a.md", read(5, "ignored")),
        &mut state
    ));
    assert_eq!(html(&state, "a.md"), "<p>old</p>");
    assert_eq!(viewer.try_recv(), Ok(ServerMessage::Reload));
}

#[test]
fn a_new_file_is_admitted_in_directory_mode_only() {
    let mut fixed = store(vec![seen("/docs/a.md", read(1, "a"))], false);
    let mut fixed_viewer = fixed.subscribe();
    let created = event(EventKind::Create, vec![seen("/docs/b.md", read(2, "b"))]);
    assert_eq!(handle_file_event(&created, &mut fixed), 0);
    assert_eq!(fixed.get_sorted_filenames(), vec!["a.md".to_string()]);
    assert_eq!(fixed_viewer.try_recv(), Err(TryRecvError::Empty));

    let mut open = store(vec![seen("/docs/a.md", read(1, "a"))], true);
    let mut open_viewer = open.subscribe();
    assert_eq!(handle_file_event(&created, &mut open), 1);
    assert_eq!(handle_file_event(&created, &mut open), 1);
    assert_eq!(handle_file_event(&created, &mut open), 1);
    assert_eq!(
        open.get_sorted_filenames(),
        vec!["a.md".to_string(), "b.md".to_string()]
    );
    assert_eq!(html(&open, "b.md"), "<p>b</p>");
    assert_eq!(open_viewer.try_recv(), Ok(ServerMessage::Reload));
    assert_eq!(open_viewer.try_recv(), Ok(ServerMessage::Reload));
    assert_eq!(open_viewer.try_recv(), Ok(ServerMessage::Reload));
    assert_eq!(open_viewer.try_recv(), Err(TryRecvError::Empty));
}

#[test]
fn an_event_with_several_paths_handles_each_in_order() {
    let mut state = store(Vec::new(), true);
    let created = event(
        EventKind::Create,
        vec![
            seen("/docs/a.md", read(1, "one")),
            seen("/docs/skip.txt", read(1, "text")),
            seen("/docs/a.md", read(2, "two")),
            seen("/docs/pic.png", FileObservation::Unread { modified: 1 }),
        ],
    );
    assert_eq!(handle_file_event(&created, &mut state), 3);
    assert_eq!(state.get_sorted_filenames(), vec!["a.md".to_string()]);
    assert_eq!(html(&state, "a.md"), "<p>two</p>");
    assert_eq!(state.get("a.md").unwrap().last_modified, 2);
}

#[test]
fn an_event_without_paths_does_nothing() {
    let mut state = store(vec![seen("/docs/a.md", read(1, "a"))], true);
    assert_eq!(handle_file_event(&event(EventKind::Create, Vec::new()), &mut state), 0);
    assert_eq!(state.get_sorted_filenames(), vec!["a.md".to_string()]);
}

#[test]
fn removal_never_untracks_a_document() {
    let mut state = store(vec![seen("/docs/a.md", read(1, "a"))], true);
    let mut viewer = state.subscribe();
    assert_eq!(
        handle_file_event(&event(EventKind::Remove, vec![gone("/docs/a.md")]), &mut state),
        0
    );
    assert_eq!(
        handle_file_event(
            &event(EventKind::ModifyName(RenameMode::From), vec![gone("/docs/a.md")]),
            &mut state
        ),
        0
    );
    assert_eq!(
        handle_file_event(
            &event(EventKind::ModifyName(RenameMode::Any), vec![gone("/docs/a.md")]),
            &mut state
        ),
        0
    );
    assert!(state.is_tracked("a.md"));
    assert_eq!(html(&state, "a.md"), "<p>a</p>");
    assert_eq!(viewer.try_recv(), Err(TryRecvError::Empty));
}

#[test]
fn an_image_event_reloads_without_touching_the_store() {
    let mut state = store(vec![seen("/docs/a.md", read(1, "a"))], true);
    let mut viewer = state.subscribe();
    let op = Operation::AssetChanged("/docs/pic.png".to_string());
    let report = seen("/docs/pic.png", FileObservation::Unread { modified: 3 });
    assert!(apply_operation(&op, &report, &mut state));
    assert!(!apply_operation(&Operation::Ignore, &report, &mut state));
    assert_eq!(state.get_sorted_filenames(), vec!["a.md".to_string()]);
    assert_eq!(viewer.try_recv(), Ok(ServerMessage::Reload));
    assert_eq!(viewer.try_recv(), Err(TryRecvError::Empty));
}

#[test]
fn a_reload_without_viewers_is_dropped() {
    let mut state = store(vec![seen("/docs/a.md", read(1, "a"))], true);
    assert!(handle_markdown_file_change(
        &seen("/docs/a.md", read(2, "b")),
        &mut state
    ));
    assert_eq!(state.publish_reload(), 0);
    let mut late = state.subscribe();
    assert_eq!(late.try_recv(), Err(TryRecvError::Empty));
    assert_eq!(state.publish_reload(), 1);
    let mut later = state.subscribe();
    assert_eq!(state.publish_reload(), 2);
    assert_eq!(late.try_recv(), Ok(ServerMessage::Reload));
    assert_eq!(late.try_recv(), Ok(ServerMessage::Reload));
    assert_eq!(late.try_recv(), Err(TryRecvError::Empty));
    assert_eq!(later.try_recv(), Ok(ServerMessage::Reload));
    assert_eq!(later.try_recv(), Err(TryRecvError::Empty));
}

#[test]
fn a_viewer_that_falls_behind_loses_the_oldest_messages_only() {
    let mut state = store(Vec::new(), true);
    let mut slow = state.subscribe();
    for _ in 0..mdserve::broadcast::QUEUE_LENGTH + 3 {
        assert_eq!(state.publish_reload(), 1);
    }
    assert_eq!(slow.try_recv(), Err(TryRecvError::Lagged(3)));
    assert_eq!(slow.try_recv(), Ok(ServerMessage::Reload));
    drop(slow);
    assert_eq!(state.publish_reload(), 0);
}

#[test]
fn a_hub_carries_any_message_to_its_subscribers() {
    let mut hub = mdserve::broadcast::ReloadHub::new();
    assert_eq!(hub.publish(ServerMessage::Pong), 0);
    let mut first = hub.subscribe();
    let mut second = hub.subscribe();
    assert_eq!(hub.publish(ServerMessage::Pong), 2);
    assert_eq!(hub.publish(ServerMessage::Reload), 2);
    assert_eq!(first.try_recv(), Ok(ServerMessage::Pong));
    assert_eq!(first.try_recv(), Ok(ServerMessage::Reload));
    assert_eq!(second.try_recv(), Ok(ServerMessage::Pong));
    drop(first);
    assert_eq!(hub.publish(ServerMessage::Reload), 1);
}

#[test]
fn content_is_wanted_only_where_it_would_be_used() {
    let state = store(vec![seen("/docs/a.md", read(5, "a"))], true);
    let unread = |path: &str, modified: i128| seen(path, FileObservation::Unread { modified });
    assert!(content_wanted(&unread("/docs/a.md", 6), &state));
    assert!(!content_wanted(&unread("/docs/a.md", 5), &state));
    assert!(content_wanted(&unread("/docs/new.md", 1), &state));
    assert!(!content_wanted(&unread("/docs/new.txt", 1), &state));
    assert!(!content_wanted(
        &seen("/docs/a.md", FileObservation::MetadataFailed),
        &state
    ));
    let fixed = store(vec![seen("/docs/a.md", read(5, "a"))], false);
    assert!(!content_wanted(&unread("/docs/new.md", 1), &fixed));
    assert!(content_wanted(&unread("/docs/a.md", 6), &fixed));
}

#[test]
fn a_document_is_served_throughout_an_editor_save() {
    let mut state = store(vec![seen("/docs/a.md", read(10, "X"))], true);
    let mut viewer = state.subscribe();
    assert_eq!(state.get_sorted_filenames(), vec!["a.md".to_string()]);
    assert_eq!(html(&state, "a.md"), "<p>X</p>");

    let modified = event(EventKind::ModifyData, vec![seen("/docs/a.md", read(20, "Y"))]);
    assert_eq!(handle_file_event(&modified, &mut state), 1);
    assert_eq!(viewer.try_recv(), Ok(ServerMessage::Reload));
    assert_eq!(viewer.try_recv(), Err(TryRecvError::Empty));
    assert_eq!(html(&state, "a.md"), "<p>Y</p>");

    let to_backup = event(
        EventKind::ModifyName(RenameMode::Both),
        vec![gone("/docs/a.md"), seen("/docs/a.md.bak", read(20, "Y"))],
    );
    assert_eq!(handle_file_event(&to_backup, &mut state), 0);
    assert!(state.is_tracked("a.md"));
    assert_eq!(html(&state, "a.md"), "<p>Y</p>");
    assert_eq!(
        state.refresh_file("a.md", &FileObservation::MetadataFailed),
        Err(mdserve::observe::FileError::Metadata)
    );
    assert_eq!(html(&state, "a.md"), "<p>Y</p>");

    let written = event(EventKind::Create, vec![seen("/docs/a.md", read(30, "Z"))]);
    assert_eq!(handle_file_event(&written, &mut state), 1);
    assert_eq!(state.get_sorted_filenames(), vec!["a.md".to_string()]);
    assert_eq!(html(&state, "a.md"), "<p>Z</p>");
    assert_eq!(viewer.try_recv(), Ok(ServerMessage::Reload));
    assert_eq!(viewer.try_recv(), Err(TryRecvError::Empty));
}

#[test]
fn a_store_over_an_empty_directory_follows_a_file_from_creation() {
    let mut state = store(Vec::new(), true);
    let mut viewer = state.subscribe();
    assert!(state.get_sorted_filenames().is_empty());

    let created = event(EventKind::Create, vec![seen("/docs/a.md", read(1, "X"))]);
    assert_eq!(handle_file_event(&created, &mut state), 1);
    assert_eq!(state.get_sorted_filenames(), vec!["a.md".to_string()]);
    assert_eq!(html(&state, "a.md"), "<p>X</p>");
    assert_eq!(viewer.try_recv(), Ok(ServerMessage::Reload));

    let modified = event(EventKind::ModifyData, vec![seen("/docs/a.md", read(2, "Y"))]);
    assert_eq!(handle_file_event(&modified, &mut state), 1);
    assert_eq!(viewer.try_recv(), Ok(ServerMessage::Reload));
    assert_eq!(viewer.try_recv(), Err(TryRecvError::Empty));
    assert_eq!(html(&state, "a.md"), "<p>Y</p>");

    let away = event(
        EventKind::ModifyName(RenameMode::From),
        vec![gone("/docs/a.md")],
    );
    assert_eq!(handle_file_event(&away, &mut state), 0);
    assert!(state.is_tracked("a.md"));
    let backup = event(
        EventKind::ModifyName(RenameMode::To),
        vec![seen("/docs/a.md.bak", read(2, "Y"))],
    );
    assert_eq!(handle_file_event(&backup, &mut state), 0);
    assert!(state.is_tracked("a.md"));
    assert_eq!(html(&state, "a.md"), "<p>Y</p>");

    let rewritten = event(EventKind::Create, vec![seen("/docs/a.md", read(3, "Z"))]);
    assert_eq!(handle_file_event(&rewritten, &mut state), 1);
    assert_eq!(state.get_sorted_filenames(), vec!["a.md".to_string()]);
    assert_eq!(html(&state, "a.md"), "<p>Z</p>");
}

#[test]
fn a_temporary_file_renamed_over_a_document_updates_it() {
    let mut state = store(vec![seen("/docs/a.md", read(10, "Draft"))], false);
    let mut viewer = state.subscribe();
    let temp = event(
        EventKind::Create,
        vec![seen("/docs/a.md.tmp.12345", read(11, "Updated"))],
    );
    assert_eq!(handle_file_event(&temp, &mut state), 0);
    let renamed = event(
        EventKind::ModifyName(RenameMode::Both),
        vec![
            gone("/docs/a.md.tmp.12345"),
            seen("/docs/a.md", read(11, "Updated")),
        ],
    );
    assert_eq!(handle_file_event(&renamed, &mut state), 1);
    assert_eq!(html(&state, "a.md"), "<p>Updated</p>");
    assert_eq!(viewer.try_recv(), Ok(ServerMessage::Reload));
    assert_eq!(viewer.try_recv(), Err(TryRecvError::Empty));
}
