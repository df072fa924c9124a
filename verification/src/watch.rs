//! The watch pump: from a file-system notification to what it means for the
//! store, and from there to the store's next state and the reloads that go
//! out.
//!
//! Editors save in roundabout ways: the live file is renamed to a backup
//! before a new one is written, or a temporary file is renamed over it. A
//! removal or the old side of a rename is therefore never taken as the end
//! of a document; only what appears or changes at a path counts.

use crate::broadcast::ServerMessage;
use crate::observe::{observed_time, FileObservation, PathReport};
use crate::paths::{
    document_key, image_extension, is_image_file, is_markdown_file, key_of, lowercase_extension,
    markdown_path,
};
use crate::store::{MarkdownState, StoreView};
use vstd::prelude::*;
use vstd::string::*;

verus! {

/// Which side of a rename the paths of a notification show.
#[derive(Clone, Copy, Debug, PartialEq, Eq, Structural)]
pub enum RenameMode {
    /// One path, and the platform does not say whether it is the old name
    /// or the new one.
    Any,
    /// The new name.
    To,
    /// The old name.
    From,
    /// Both: the old name first, the new name second.
    Both,
    /// Something else.
    Other,
}

/// What a notification says happened.
#[derive(Clone, Copy, Debug, PartialEq, Eq, Structural)]
pub enum EventKind {
    /// A file or directory was created.
    Create,
    /// The content of a file changed.
    ModifyData,
    /// A file or directory was renamed.
    ModifyName(RenameMode),
    /// Another modification: of metadata, or one the platform does not
    /// describe further.
    ModifyOther,
    /// A file or directory was removed.
    Remove,
    /// Anything else, such as an access.
    Other,
}

/// A notification, with what the driver found at each of its paths when it
/// arrived.
#[derive(Debug, PartialEq, Eq)]
pub struct FileEvent {
    /// What happened.
    pub kind: EventKind,
    /// Where it happened: one path as a rule, the old and the new one for
    /// a rename that shows both.
    pub paths: Vec<PathReport>,
}

/// What a notification means for the store, path by path.
#[derive(Debug, PartialEq, Eq)]
pub enum Operation {
    /// The document at this path has new content.
    ContentChanged(String),
    /// A document appeared at this path.
    Created(String),
    /// An image next to the documents changed: nothing for the store to do,
    /// but pages that show it should reload.
    AssetChanged(String),
    /// Nothing to do.
    Ignore,
}

/// Whether a path names an image that is served next to the documents.
pub open spec fn image_path(path: Seq<char>) -> bool {
    image_extension(lowercase_extension(path))
}

/// Whether the path at place `i` of a rename notification with `count`
/// paths is where the renamed file now is: the second of two for a rename
/// that shows both names, the first for one that shows the new name, and
/// for one that does not say which name it shows, the first if something
/// exists there. The old name never is.
pub open spec fn rename_target(mode: RenameMode, count: int, i: int, exists: bool) -> bool {
    match mode {
        RenameMode::Both => count == 2 && i == 1,
        RenameMode::To => i == 0,
        RenameMode::Any => i == 0 && exists,
        RenameMode::From => false,
        RenameMode::Other => false,
    }
}

/// Whether a notification of `kind` at the path of an image calls for a
/// reload: the image was created or modified and is a regular file, or it
/// was removed, after which nothing is left at the path to ask.
pub open spec fn asset_changed(kind: EventKind, is_file: bool) -> bool {
    match kind {
        EventKind::Create | EventKind::ModifyData | EventKind::ModifyOther => is_file,
        EventKind::Remove => true,
        _ => false,
    }
}

/// What a notification of `kind` with `count` paths means at its `i`-th
/// path, given what was found there.
pub open spec fn operation_for(
    kind: EventKind,
    count: int,
    i: int,
    report: PathReport,
) -> Operation {
    match kind {
        EventKind::ModifyName(mode) => {
            if rename_target(mode, count, i, report.exists) && markdown_path(report.path@) {
                Operation::ContentChanged(report.path)
            } else {
                Operation::Ignore
            }
        },
        _ => {
            if markdown_path(report.path@) {
                match kind {
                    EventKind::Create => Operation::Created(report.path),
                    EventKind::ModifyData => Operation::ContentChanged(report.path),
                    _ => Operation::Ignore,
                }
            } else if image_path(report.path@) && asset_changed(kind, report.is_file) {
                Operation::AssetChanged(report.path)
            } else {
                Operation::Ignore
            }
        },
    }
}

/// What `event` means at its `i`-th path.
pub open spec fn operation_at(event: FileEvent, i: int) -> Operation {
    operation_for(event.kind, event.paths@.len() as int, i, event.paths@[i])
}

/// Whether the path at place `i` of a rename notification with `count`
/// paths is where the renamed file now is.
fn is_rename_target(mode: RenameMode, count: usize, i: usize, exists: bool) -> (yes: bool)
    ensures
        yes == rename_target(mode, count as int, i as int, exists),
{
    match mode {
        RenameMode::Both => count == 2 && i == 1,
        RenameMode::To => i == 0,
        RenameMode::Any => i == 0 && exists,
        RenameMode::From => false,
        RenameMode::Other => false,
    }
}

/// Whether a notification of `kind` at the path of an image calls for a
/// reload.
fn is_asset_change(kind: EventKind, is_file: bool) -> (yes: bool)
    ensures
        yes == asset_changed(kind, is_file),
{
    match kind {
        EventKind::Create | EventKind::ModifyData | EventKind::ModifyOther => is_file,
        EventKind::Remove => true,
        _ => false,
    }
}

/// Classifies one path of a notification of `kind` with `count` paths: the
/// `i`-th, of which `report` says what was found there.
pub fn classify_path(kind: EventKind, count: usize, i: usize, report: &PathReport) -> (op:
    Operation)
    ensures
        op == operation_for(kind, count as int, i as int, *report),
{
    let path = report.path.as_str();
    match kind {
        EventKind::ModifyName(mode) => {
            if is_rename_target(mode, count, i, report.exists) && is_markdown_file(path) {
                Operation::ContentChanged(report.path.clone())
            } else {
                Operation::Ignore
            }
        },
        _ => {
            if is_markdown_file(path) {
                match kind {
                    EventKind::Create => Operation::Created(report.path.clone()),
                    EventKind::ModifyData => Operation::ContentChanged(report.path.clone()),
                    _ => Operation::Ignore,
                }
            } else if is_image_file(path) && is_asset_change(kind, report.is_file) {
                Operation::AssetChanged(report.path.clone())
            } else {
                Operation::Ignore
            }
        },
    }
}

/// Classifies a notification: one operation for each of its paths, in
/// their order.
pub fn classify(event: &FileEvent) -> (ops: Vec<Operation>)
    ensures
        ops@.len() == event.paths@.len(),
        forall|i: int| 0 <= i < ops@.len() ==> #[trigger] ops@[i] == operation_at(*event, i),
{
    let count = event.paths.len();
    let mut ops: Vec<Operation> = Vec::new();
    let mut i: usize = 0;
    while i < count
        invariant
            count == event.paths@.len(),
            i <= count,
            ops@.len() == i,
            forall|k: int| 0 <= k < i ==> #[trigger] ops@[k] == operation_at(*event, k),
        decreases count - i,
    {
        ops.push(classify_path(event.kind, count, i, &event.paths[i]));
        i += 1;
    }
    ops
}

/// The store once the documents were brought up to date with a change at
/// a path, before anything is published. A path that names no markdown
/// document changes nothing. A document that is tracked under the path's
/// key is refreshed; one that is not is offered to the store, which takes
/// it in if it admits new documents.
pub open spec fn change_stored(store: StoreView, report: PathReport) -> StoreView {
    let key = key_of(report.resolved(), store.base_dir);
    if !markdown_path(report.path@) {
        store
    } else if store.tracks(key) {
        store.refreshed(key, report.observed)
    } else {
        store.admitted(report)
    }
}

/// Whether taking up a change at a path sends a reload: it does where the
/// document was refreshed or taken in without an error.
pub open spec fn change_published(store: StoreView, report: PathReport) -> bool {
    let key = key_of(report.resolved(), store.base_dir);
    if !markdown_path(report.path@) {
        false
    } else if store.tracks(key) {
        store.refresh_outcome(key, report.observed) is Ok
    } else {
        store.is_directory_mode && store.admit_outcome(report) is Ok
    }
}

/// The store after a change at a path was taken up: the documents are
/// brought up to date first, and then, if that went without an error, the
/// reload is published, so that it goes on record with the documents as
/// the change left them.
pub open spec fn change_applied(store: StoreView, report: PathReport) -> StoreView {
    let stored = change_stored(store, report);
    if change_published(store, report) {
        stored.announced(ServerMessage::Reload)
    } else {
        stored
    }
}

/// Whether the content of the file matters to what taking up a change at
/// its path does: the path names a markdown document whose metadata was
/// read, and the document is tracked and older than the file, or not
/// tracked while the store admits new documents.
pub open spec fn content_matters(store: StoreView, report: PathReport) -> bool {
    let key = key_of(report.resolved(), store.base_dir);
    match observed_time(report.observed) {
        Some(modified) => markdown_path(report.path@) && if store.tracks(key) {
            store.stale(key, modified)
        } else {
            store.is_directory_mode
        },
        None => false,
    }
}

/// Whether the driver should read the file's content before it hands
/// `report` to [`handle_markdown_file_change`]. Where this is false, a
/// report without the content is handled as one with it would be.
pub fn content_wanted(report: &PathReport, state: &MarkdownState) -> (yes: bool)
    ensures
        yes == content_matters(state@, *report),
{
    let modified = match &report.observed {
        FileObservation::MetadataFailed => {
            return false;
        },
        FileObservation::Unread { modified } => *modified,
        FileObservation::Read { modified, .. } => *modified,
    };
    if !is_markdown_file(report.path.as_str()) {
        return false;
    }
    let key = document_key(report.resolved_path(), state.base_dir());
    if state.is_tracked(key.as_str()) {
        state.is_stale(key.as_str(), modified)
    } else {
        state.show_navigation()
    }
}

/// Takes up a change at the path that `report` speaks of: refreshes the
/// document there or takes it into the store, and then, if that went
/// without an error, tells the viewers to reload. Returns whether it did.
pub fn handle_markdown_file_change(report: &PathReport, state: &mut MarkdownState) -> (published:
    bool)
    ensures
        final(state)@ == change_applied(old(state)@, *report),
        published == change_published(old(state)@, *report),
{
    if !is_markdown_file(report.path.as_str()) {
        return false;
    }
    let path = report.resolved_path();
    let key = document_key(path, state.base_dir());
    let done = if state.is_tracked(key.as_str()) {
        state.refresh_file(key.as_str(), &report.observed).is_ok()
    } else if state.show_navigation() {
        state.add_tracked_file(report).is_ok()
    } else {
        false
    };
    if done {
        state.publish_reload();
    }
    done
}

/// The store after an operation was applied, given what was found at the
/// operation's path.
pub open spec fn operation_applied(
    store: StoreView,
    op: Operation,
    report: PathReport,
) -> StoreView {
    match op {
        Operation::ContentChanged(_) | Operation::Created(_) => change_applied(store, report),
        Operation::AssetChanged(_) => store.announced(ServerMessage::Reload),
        Operation::Ignore => store,
    }
}

/// Whether applying an operation sends a reload.
pub open spec fn operation_published(store: StoreView, op: Operation, report: PathReport) -> bool {
    match op {
        Operation::ContentChanged(_) | Operation::Created(_) => change_published(store, report),
        Operation::AssetChanged(_) => true,
        Operation::Ignore => false,
    }
}

/// The store after the first `n` paths of `event` were handled.
pub open spec fn event_applied(store: StoreView, event: FileEvent, n: int) -> StoreView
    decreases n,
{
    if n <= 0 {
        store
    } else {
        operation_applied(
            event_applied(store, event, n - 1),
            operation_at(event, n - 1),
            event.paths@[n - 1],
        )
    }
}

/// The number of reloads sent while the first `n` paths of `event` were
/// handled.
pub open spec fn event_published(store: StoreView, event: FileEvent, n: int) -> nat
    decreases n,
{
    if n <= 0 {
        0
    } else {
        let sent: nat = if operation_published(
            event_applied(store, event, n - 1),
            operation_at(event, n - 1),
            event.paths@[n - 1],
        ) {
            1
        } else {
            0
        };
        event_published(store, event, n - 1) + sent
    }
}

/// Applies one operation to the store, with what was found at its path,
/// and sends the reload that it calls for. Returns whether one was sent.
pub fn apply_operation(op: &Operation, report: &PathReport, state: &mut MarkdownState) -> (sent:
    bool)
    ensures
        final(state)@ == operation_applied(old(state)@, *op, *report),
        sent == operation_published(old(state)@, *op, *report),
{
    match op {
        Operation::ContentChanged(_) | Operation::Created(_) => handle_markdown_file_change(
            report,
            state,
        ),
        Operation::AssetChanged(_) => {
            state.publish_reload();
            true
        },
        Operation::Ignore => false,
    }
}

/// Handles one notification: classifies each of its paths and applies the
/// operations in order, each reload going out after the store holds what
/// it announces, through the channel that the store was made with. Returns
/// the number of reloads sent.
pub fn handle_file_event(event: &FileEvent, state: &mut MarkdownState) -> (published: usize)
    ensures
        final(state)@ == event_applied(old(state)@, *event, event.paths@.len() as int),
        published == event_published(old(state)@, *event, event.paths@.len() as int),
        final(state)@.channel == old(state)@.channel,
{
    let count = event.paths.len();
    let mut published: usize = 0;
    let mut i: usize = 0;
    while i < count
        invariant
            count == event.paths@.len(),
            i <= count,
            published <= i,
            state@ == event_applied(old(state)@, *event, i as int),
            published == event_published(old(state)@, *event, i as int),
            state@.channel == old(state)@.channel,
        decreases count - i,
    {
        let op = classify_path(event.kind, count, i, &event.paths[i]);
        if apply_operation(&op, &event.paths[i], state) {
            published += 1;
        }
        i += 1;
    }
    published
}

} // verus!
