//! What holds of the store and the watch pump whatever the disk does.

use crate::broadcast::ServerMessage;
use crate::observe::{observed_time, FileObservation, PathReport};
use crate::paths::{key_of, markdown_extension, markdown_path, path_extension};
use crate::render::rendered;
use crate::store::{lists, Document, StoreView};
use crate::text::{
    caseless_eq, lemma_caseless_eq_equivalence, lemma_text_lt_strict_total, text_lt, utf8,
};
use crate::watch::{
    change_applied, change_published, change_stored, content_matters, event_applied,
    event_published, image_path, operation_at, EventKind, FileEvent, RenameMode,
};
use vstd::prelude::*;
use vstd::string::*;

verus! {

/// Two extensions that differ in ASCII case only are both markdown
/// extensions or neither is.
pub proof fn lemma_extension_case_is_ignored(a: Seq<char>, b: Seq<char>)
    requires
        caseless_eq(utf8(a), utf8(b)),
    ensures
        markdown_extension(a) == markdown_extension(b),
{
    lemma_caseless_eq_equivalence(utf8(a), utf8(b), utf8("md"@));
    lemma_caseless_eq_equivalence(utf8(b), utf8(a), utf8("md"@));
    lemma_caseless_eq_equivalence(utf8(a), utf8(b), utf8("markdown"@));
    lemma_caseless_eq_equivalence(utf8(b), utf8(a), utf8("markdown"@));
}

/// Whether a path names a markdown document depends on its extension
/// alone, and on that only up to ASCII case: two paths whose extensions
/// match without regard to case are classified alike, and a path without
/// an extension is no document.
pub proof fn lemma_extension_decides(p: Seq<char>, q: Seq<char>)
    requires
        match (path_extension(p), path_extension(q)) {
            (Some(a), Some(b)) => caseless_eq(utf8(a), utf8(b)),
            (None, None) => true,
            _ => false,
        },
    ensures
        markdown_path(p) == markdown_path(q),
        path_extension(p) is None ==> !markdown_path(p),
{
    if let (Some(a), Some(b)) = (path_extension(p), path_extension(q)) {
        lemma_extension_case_is_ignored(a, b);
    }
}

/// A rename means something at one of its paths at most, and that is
/// never the old name: the second path of a rename that shows both names,
/// the first path of one that shows one.
pub proof fn lemma_rename_means_one_operation(event: FileEvent, i: int, j: int)
    requires
        event.kind is ModifyName,
        i != j,
    ensures
        operation_at(event, i) is Ignore || operation_at(event, j) is Ignore,
        event.kind == EventKind::ModifyName(RenameMode::From) ==> operation_at(event, i) is Ignore,
        !(operation_at(event, i) is Ignore) ==> i == 0 || i == 1 && event.kind
            == EventKind::ModifyName(RenameMode::Both),
{
}

/// A removal means nothing for the documents: at a markdown path it is
/// ignored, whatever was found there.
pub proof fn lemma_removal_is_ignored(event: FileEvent, i: int)
    requires
        event.kind == EventKind::Remove,
    ensures
        operation_at(event, i) is Ignore || operation_at(event, i) is AssetChanged,
        markdown_path(event.paths@[i].path@) ==> operation_at(event, i) is Ignore,
{
}

/// The removal of an image calls for a reload, though nothing is left at
/// its path to look at.
pub proof fn lemma_image_removal_reloads(event: FileEvent, i: int)
    requires
        event.kind == EventKind::Remove,
        !markdown_path(event.paths@[i].path@),
        image_path(event.paths@[i].path@),
    ensures
        operation_at(event, i) is AssetChanged,
{
}

/// One file has one key: two reports that resolve to the same path are
/// admitted under the same key, whatever paths led to the file, and a file
/// that is offered again by another route adds no second document.
pub proof fn lemma_one_file_one_key(store: StoreView, first: PathReport, second: PathReport)
    requires
        first.resolved() == second.resolved(),
    ensures
        store.key_for(first) == store.key_for(second),
        first.observed is Read ==> store.admitted(first).admitted(second) == store.admitted(first),
{
}

/// A refresh repeated against the same observation changes nothing more:
/// the store after the second refresh is the store after the first, time
/// and HTML of every document included, and the second reports what the
/// first did.
pub proof fn lemma_refresh_is_idempotent(
    store: StoreView,
    key: Seq<char>,
    observed: FileObservation,
)
    ensures
        store.refreshed(key, observed).refreshed(key, observed) == store.refreshed(key, observed),
        store.refreshed(key, observed).refresh_outcome(key, observed) == store.refresh_outcome(
            key,
            observed,
        ),
{
}

/// A refresh that fails leaves the store as it was.
pub proof fn lemma_failed_refresh_keeps_store(
    store: StoreView,
    key: Seq<char>,
    observed: FileObservation,
)
    requires
        store.refresh_outcome(key, observed) is Err,
    ensures
        store.refreshed(key, observed) == store,
{
}

/// A refresh replaces the time and the HTML of a document together or not
/// at all, and touches no other document.
pub proof fn lemma_refresh_replaces_pairs(
    store: StoreView,
    key: Seq<char>,
    observed: FileObservation,
    other: Seq<char>,
)
    requires
        store.tracks(other),
    ensures
        store.refreshed(key, observed).tracks(other),
        other != key ==> store.refreshed(key, observed).files[other] == store.files[other],
        ({
            let after = store.refreshed(key, observed).files[key];
            ||| after == store.files[key]
            ||| observed matches FileObservation::Read { modified, content }
                && after.last_modified == modified && after.html == rendered(content@)
        }),
{
}

/// Handling a change at a path never removes a document, and leaves the
/// root and the mode of the store as they were.
pub proof fn lemma_change_keeps_documents(store: StoreView, report: PathReport, key: Seq<char>)
    ensures
        change_applied(store, report).base_dir == store.base_dir,
        change_applied(store, report).is_directory_mode == store.is_directory_mode,
        store.tracks(key) ==> change_applied(store, report).tracks(key),
{
}

/// No notification removes a document: whatever is tracked before an event
/// is tracked after it, and at every step in between. The root and the
/// mode stay too.
pub proof fn lemma_event_keeps_documents(store: StoreView, event: FileEvent, n: int, key: Seq<char>)
    ensures
        event_applied(store, event, n).base_dir == store.base_dir,
        event_applied(store, event, n).is_directory_mode == store.is_directory_mode,
        store.tracks(key) ==> event_applied(store, event, n).tracks(key),
    decreases n,
{
    if n > 0 {
        lemma_event_keeps_documents(store, event, n - 1, key);
        lemma_change_keeps_documents(event_applied(store, event, n - 1), event.paths@[n - 1], key);
    }
}

/// No notification sets a document back: the time of a tracked document
/// after an event is the time before it or a later one.
pub proof fn lemma_event_never_ages_documents(
    store: StoreView,
    event: FileEvent,
    n: int,
    key: Seq<char>,
)
    requires
        store.tracks(key),
    ensures
        event_applied(store, event, n).tracks(key),
        event_applied(store, event, n).files[key].last_modified >= store.files[key].last_modified,
    decreases n,
{
    if n > 0 {
        lemma_event_never_ages_documents(store, event, n - 1, key);
    }
}

/// An event sends at most one reload for each of its paths: none without
/// a path, and at most one where it has a single path.
pub proof fn lemma_one_reload_for_each_path(store: StoreView, event: FileEvent, n: int)
    requires
        0 <= n,
    ensures
        event_published(store, event, n) <= n,
    decreases n,
{
    if n > 0 {
        lemma_one_reload_for_each_path(store, event, n - 1);
    }
}

/// A removal, and the old side of a rename, change no document: what was
/// served before is served after, as it was. The old side of a rename
/// does not even send a reload.
pub proof fn lemma_departure_changes_nothing(store: StoreView, event: FileEvent, n: int)
    requires
        event.kind == EventKind::Remove || event.kind == EventKind::ModifyName(RenameMode::From),
    ensures
        event_applied(store, event, n).files == store.files,
        event.kind == EventKind::ModifyName(RenameMode::From) ==> event_applied(store, event, n)
            == store && event_published(store, event, n) == 0,
    decreases n,
{
    if n > 0 {
        lemma_departure_changes_nothing(store, event, n - 1);
    }
}

/// A file that turns up at the path of a tracked document, read and newer
/// than the store has it, is what the store serves from then on, and a
/// reload goes out for it.
pub proof fn lemma_change_shows_new_content(store: StoreView, report: PathReport)
    requires
        markdown_path(report.path@),
        store.tracks(key_of(report.resolved(), store.base_dir)),
        report.observed is Read,
        store.stale(key_of(report.resolved(), store.base_dir), observed_time(report.observed)->0),
    ensures
        ({
            let key = key_of(report.resolved(), store.base_dir);
            let after = change_applied(store, report);
            &&& after.tracks(key)
            &&& after.files[key].last_modified == report.observed->Read_modified
            &&& after.files[key].html == rendered(report.observed->Read_content@)
            &&& change_published(store, report)
        }),
{
}

/// A reload is published after the store was changed, never before: the
/// message that goes out for a change is on record with the documents as
/// the change left them, the document of the change among them, and a
/// change that sends nothing puts nothing on record.
pub proof fn lemma_reload_follows_mutation(store: StoreView, report: PathReport)
    ensures
        ({
            let key = key_of(report.resolved(), store.base_dir);
            let after = change_applied(store, report);
            if change_published(store, report) {
                &&& after.published.len() == store.published.len() + 1
                &&& after.published.drop_last() == store.published
                &&& after.published.last().message == ServerMessage::Reload
                &&& after.published.last().files == after.files
                &&& after.files == change_stored(store, report).files
                &&& after.tracks(key)
            } else {
                after.published == store.published
            }
        }),
{
    let after = change_applied(store, report);
    if change_published(store, report) {
        assert(after.published.drop_last() =~= store.published);
    }
}

/// Every reload that an event sends is on record with the documents as
/// they were right after the path that called for it was handled: a viewer
/// that fetches a page on receiving the message finds the store as that
/// change left it, or as a later one did.
pub proof fn lemma_reloads_show_the_store_of_their_moment(
    store: StoreView,
    event: FileEvent,
    n: int,
    k: int,
)
    requires
        0 <= n,
        store.published.len() <= k < event_applied(store, event, n).published.len(),
    ensures
        event_applied(store, event, n).published[k].message == ServerMessage::Reload,
        exists|i: int|
            0 < i <= n && (#[trigger] event_applied(store, event, i)).files == event_applied(
                store,
                event,
                n,
            ).published[k].files,
    decreases n,
{
    if n > 0 {
        let before = event_applied(store, event, n - 1);
        let after = event_applied(store, event, n);
        lemma_reload_follows_mutation(before, event.paths@[n - 1]);
        if k < before.published.len() {
            lemma_reloads_show_the_store_of_their_moment(store, event, n - 1, k);
            let i = choose|i: int|
                0 < i <= n - 1 && (#[trigger] event_applied(store, event, i)).files
                    == before.published[k].files;
            assert(after.published[k] == before.published[k]);
            assert(event_applied(store, event, i).files == after.published[k].files);
        } else {
            assert(after.published[k].files == event_applied(store, event, n).files);
        }
    }
}

/// What is on record as published is never taken back: an event adds to
/// the record, and only reloads.
pub proof fn lemma_event_extends_the_record(store: StoreView, event: FileEvent, n: int)
    requires
        0 <= n,
    ensures
        event_applied(store, event, n).published.len() == store.published.len() + event_published(
            store,
            event,
            n,
        ),
        event_applied(store, event, n).published.subrange(0, store.published.len() as int)
            == store.published,
    decreases n,
{
    if n > 0 {
        let before = event_applied(store, event, n - 1);
        let after = event_applied(store, event, n);
        lemma_event_extends_the_record(store, event, n - 1);
        lemma_reload_follows_mutation(before, event.paths@[n - 1]);
        let kept = store.published.len() as int;
        assert(after.published.subrange(0, kept) =~= before.published.subrange(0, kept));
    } else {
        assert(store.published.subrange(0, store.published.len() as int) =~= store.published);
    }
}

/// In single-file mode the set of documents is closed: no notification
/// adds to it or takes from it.
pub proof fn lemma_fixed_mode_is_closed(store: StoreView, event: FileEvent, n: int)
    requires
        !store.is_directory_mode,
    ensures
        event_applied(store, event, n).files.dom() == store.files.dom(),
    decreases n,
{
    if n > 0 {
        lemma_fixed_mode_is_closed(store, event, n - 1);
        let before = event_applied(store, event, n - 1);
        lemma_event_keeps_documents(store, event, n - 1, seq![]);
        let after = event_applied(store, event, n);
        assert(after.files.dom() =~= before.files.dom());
    }
}

/// In directory mode a markdown file that was read is tracked once the
/// change at its path was handled, and handling the same change again
/// leaves the store as it is: however often a file is announced, it is in
/// the store once.
pub proof fn lemma_new_document_is_admitted_once(store: StoreView, report: PathReport)
    requires
        store.is_directory_mode,
        markdown_path(report.path@),
        report.observed is Read,
    ensures
        change_applied(store, report).tracks(key_of(report.resolved(), store.base_dir)),
        change_applied(change_applied(store, report), report).files == change_applied(
            store,
            report,
        ).files,
{
}

/// A listing of the store's keys names no key twice.
pub proof fn lemma_listing_has_no_duplicates(
    names: Seq<String>,
    files: Map<Seq<char>, Document>,
    i: int,
    j: int,
)
    requires
        lists(names, files),
        0 <= i < names.len(),
        0 <= j < names.len(),
        i != j,
    ensures
        names[i]@ != names[j]@,
{
    lemma_text_lt_strict_total(names[i]@, names[i]@, names[i]@);
    if i < j {
        assert(text_lt(names[i]@, names[j]@));
    } else {
        assert(text_lt(names[j]@, names[i]@));
    }
}

/// One thing that is done to a store after it was made.
pub enum Step {
    /// A notification is handled.
    Event(FileEvent),
    /// The document under `key` is refreshed against an observation.
    Refresh { key: Seq<char>, observed: FileObservation },
    /// A file is offered, with what was found of it.
    Admit(PathReport),
    /// A reload is published.
    Publish,
}

/// The store after one step.
pub open spec fn step_applied(store: StoreView, step: Step) -> StoreView {
    match step {
        Step::Event(event) => event_applied(store, event, event.paths@.len() as int),
        Step::Refresh { key, observed } => store.refreshed(key, observed),
        Step::Admit(file) => store.admitted(file),
        Step::Publish => store.announced(ServerMessage::Reload),
    }
}

/// The store after a run of steps, taken in order.
pub open spec fn steps_applied(store: StoreView, steps: Seq<Step>) -> StoreView
    decreases steps.len(),
{
    if steps.len() == 0 {
        store
    } else {
        step_applied(steps_applied(store, steps.drop_last()), steps.last())
    }
}

/// Whatever is done to a store, a document that it tracks stays tracked,
/// and is never set back to an older reading: there is no moment at which
/// a document that was served is not found. The root and the mode stay as
/// they were made.
pub proof fn lemma_documents_stay(store: StoreView, steps: Seq<Step>, key: Seq<char>)
    requires
        store.tracks(key),
    ensures
        steps_applied(store, steps).tracks(key),
        steps_applied(store, steps).files[key].last_modified >= store.files[key].last_modified,
        steps_applied(store, steps).base_dir == store.base_dir,
        steps_applied(store, steps).is_directory_mode == store.is_directory_mode,
    decreases steps.len(),
{
    if steps.len() > 0 {
        lemma_documents_stay(store, steps.drop_last(), key);
        let before = steps_applied(store, steps.drop_last());
        if let Step::Event(event) = steps.last() {
            lemma_event_never_ages_documents(before, event, event.paths@.len() as int, key);
            lemma_event_keeps_documents(before, event, event.paths@.len() as int, key);
        }
    }
}

/// Whatever is done to a store, its messages go out through the channel
/// it was made with: a subscription to the store stays one.
pub proof fn lemma_subscriptions_stay(
    store: StoreView,
    steps: Seq<Step>,
    rx: tokio::sync::broadcast::Receiver<ServerMessage>,
)
    ensures
        steps_applied(store, steps).channel == store.channel,
        steps_applied(store, steps).feeds(rx) == store.feeds(rx),
    decreases steps.len(),
{
    if steps.len() > 0 {
        lemma_subscriptions_stay(store, steps.drop_last(), rx);
        let before = steps_applied(store, steps.drop_last());
        if let Step::Event(event) = steps.last() {
            lemma_event_keeps_channel(before, event, event.paths@.len() as int);
        }
    }
}

/// No notification changes the channel that a store's messages go out
/// through.
pub proof fn lemma_event_keeps_channel(store: StoreView, event: FileEvent, n: int)
    ensures
        event_applied(store, event, n).channel == store.channel,
    decreases n,
{
    if n > 0 {
        lemma_event_keeps_channel(store, event, n - 1);
    }
}

/// Whatever is done to a store in single-file mode, it tracks the
/// documents it was made with and no others.
pub proof fn lemma_fixed_mode_stays_closed(store: StoreView, steps: Seq<Step>)
    requires
        !store.is_directory_mode,
    ensures
        steps_applied(store, steps).files.dom() == store.files.dom(),
        !steps_applied(store, steps).is_directory_mode,
    decreases steps.len(),
{
    if steps.len() > 0 {
        lemma_fixed_mode_stays_closed(store, steps.drop_last());
        let before = steps_applied(store, steps.drop_last());
        let after = steps_applied(store, steps);
        match steps.last() {
            Step::Event(event) => {
                lemma_fixed_mode_is_closed(before, event, event.paths@.len() as int);
                lemma_event_keeps_documents(before, event, event.paths@.len() as int, seq![]);
            },
            _ => {
                assert(after.files.dom() =~= before.files.dom());
            },
        }
    }
}

/// Where the content of a file does not matter to a change, a report that
/// lacks it is handled exactly as one that has it: a driver may skip the
/// reading.
pub proof fn lemma_unwanted_content_is_ignored(
    store: StoreView,
    with: PathReport,
    without: PathReport,
)
    requires
        with.path == without.path,
        with.canonical == without.canonical,
        observed_time(with.observed) == observed_time(without.observed),
        !content_matters(store, with),
    ensures
        change_applied(store, with) == change_applied(store, without),
        change_published(store, with) == change_published(store, without),
{
}

/// Content that matters in the middle of an event mattered at its start:
/// a driver that decides what to read before it hands the event over
/// reads everything that handling the event will use.
pub proof fn lemma_content_wanted_from_the_start(
    store: StoreView,
    event: FileEvent,
    n: int,
    report: PathReport,
)
    requires
        content_matters(event_applied(store, event, n), report),
    ensures
        content_matters(store, report),
{
    let key = key_of(report.resolved(), store.base_dir);
    let later = event_applied(store, event, n);
    lemma_event_keeps_documents(store, event, n, key);
    if store.tracks(key) {
        lemma_event_never_ages_documents(store, event, n, key);
    } else if !store.is_directory_mode {
        lemma_fixed_mode_is_closed(store, event, n);
        assert(later.files.dom().contains(key) == store.files.dom().contains(key));
    }
}

} // verus!
