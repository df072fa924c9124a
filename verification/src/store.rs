//! The tracked-document store: which documents are served, from which file
//! each comes, and the HTML that is served for it.

use crate::broadcast::{listens_to, ReloadHub, ServerMessage};
use crate::observe::{observation_error, FileError, FileObservation, PathReport};
use crate::paths::{document_key, key_of};
use crate::render::{markdown_to_html, rendered};
use crate::text::{lemma_text_lt_strict_total, str_eq, str_lt, text_lt};
use vstd::prelude::*;
use vstd::string::*;

verus! {

/// A document as the store holds it.
#[derive(Debug, PartialEq, Eq)]
pub struct TrackedFile {
    /// The file that the document is read from.
    pub path: String,
    /// When that file was last modified, as of the last reading.
    pub last_modified: i128,
    /// The HTML rendered from the content read at that time.
    pub html: String,
}

/// A tracked document in specifications.
pub struct Document {
    /// The file that the document is read from.
    pub path: Seq<char>,
    /// When that file was last modified, as of the last reading.
    pub last_modified: int,
    /// The HTML rendered from the content read at that time.
    pub html: Seq<char>,
}

impl View for TrackedFile {
    type V = Document;

    open spec fn view(&self) -> Document {
        Document { path: self.path@, last_modified: self.last_modified as int, html: self.html@ }
    }
}

/// The document that a successful reading of the file at `path` gives.
pub open spec fn document_read(path: Seq<char>, modified: int, content: Seq<char>) -> Document {
    Document { path, last_modified: modified, html: rendered(content) }
}

/// A message to the viewers as it went out: what it said, and what the
/// store held at that moment.
pub struct Publication {
    /// What was said.
    pub message: ServerMessage,
    /// The tracked documents at the moment the message was published.
    pub files: Map<Seq<char>, Document>,
}

/// The store in specifications: its root, its mode, the documents it
/// tracks by key, and the messages it has published.
pub struct StoreView {
    /// The directory that keys are relative to.
    pub base_dir: Seq<char>,
    /// Whether new documents are admitted (directory mode) or the set is
    /// closed (single-file mode).
    pub is_directory_mode: bool,
    /// The tracked documents.
    pub files: Map<Seq<char>, Document>,
    /// Every message published so far, oldest first.
    pub published: Seq<Publication>,
    /// The sending half of the channel that the messages go out through.
    /// It is the same for as long as the store lives.
    pub channel: tokio::sync::broadcast::Sender<ServerMessage>,
}

impl StoreView {
    /// Whether a document is tracked under `key`.
    pub open spec fn tracks(self, key: Seq<char>) -> bool {
        self.files.contains_key(key)
    }

    /// This store with `document` under `key`, in place of what was there.
    pub open spec fn with(self, key: Seq<char>, document: Document) -> StoreView {
        StoreView { files: self.files.insert(key, document), ..self }
    }

    /// Whether `rx` is a subscription to this store: it listens on the
    /// channel that the store's messages go out through.
    pub open spec fn feeds(self, rx: tokio::sync::broadcast::Receiver<ServerMessage>) -> bool {
        listens_to(rx, self.channel)
    }

    /// This store after it published `message`: the message is on record
    /// with the documents as they are now.
    pub open spec fn announced(self, message: ServerMessage) -> StoreView {
        StoreView {
            published: self.published.push(Publication { message, files: self.files }),
            ..self
        }
    }

    /// Whether an observation of the file behind `key` shows it newer than
    /// the store has it.
    pub open spec fn stale(self, key: Seq<char>, modified: int) -> bool {
        self.tracks(key) && modified > self.files[key].last_modified
    }

    /// The store after a refresh of `key` against an observation of its
    /// file: where the file was read and is strictly newer than the stored
    /// reading, time and HTML are replaced together; otherwise nothing
    /// changes.
    pub open spec fn refreshed(self, key: Seq<char>, observed: FileObservation) -> StoreView {
        match observed {
            FileObservation::Read { modified, content } if self.stale(key, modified as int) => {
                self.with(
                    key,
                    document_read(self.files[key].path, modified as int, content@),
                )
            },
            _ => self,
        }
    }

    /// What a refresh of `key` reports: an error where the document is
    /// tracked and the observation failed at a step that the refresh
    /// needed, success otherwise.
    pub open spec fn refresh_outcome(self, key: Seq<char>, observed: FileObservation) -> Result<
        (),
        FileError,
    > {
        if !self.tracks(key) {
            Ok(())
        } else {
            match observed {
                FileObservation::MetadataFailed => Err(FileError::Metadata),
                FileObservation::Unread { modified } => if self.stale(key, modified as int) {
                    Err(FileError::Content)
                } else {
                    Ok(())
                },
                FileObservation::Read { .. } => Ok(()),
            }
        }
    }

    /// The key of the file that `file` reports of: that of its resolved
    /// path, the canonical one where there is one, so that one file has
    /// one key however the path that led to it was written.
    pub open spec fn key_for(self, file: PathReport) -> Seq<char> {
        key_of(file.resolved(), self.base_dir)
    }

    /// Whether the file that `file` reports of would be taken in: the
    /// store admits new documents and tracks none under that file's key
    /// yet.
    pub open spec fn admits(self, file: PathReport) -> bool {
        self.is_directory_mode && !self.tracks(self.key_for(file))
    }

    /// The store after the file that `file` reports of was offered: where
    /// the store admits it and it was read, it is tracked from then on,
    /// under the key of its resolved path; otherwise nothing changes.
    pub open spec fn admitted(self, file: PathReport) -> StoreView {
        match file.observed {
            FileObservation::Read { modified, content } if self.admits(file) => {
                self.with(
                    self.key_for(file),
                    document_read(file.resolved(), modified as int, content@),
                )
            },
            _ => self,
        }
    }

    /// What offering the file that `file` reports of gives back: an error
    /// where the store would have taken it in and the observation failed,
    /// success otherwise.
    pub open spec fn admit_outcome(self, file: PathReport) -> Result<(), FileError> {
        if !self.admits(file) {
            Ok(())
        } else {
            match observation_error(file.observed) {
                Some(error) => Err(error),
                None => Ok(()),
            }
        }
    }
}

/// The documents of a store that was started on `files`, read in that
/// order: each under its key, a later file in place of an earlier one with
/// the same key.
pub open spec fn initial_files(base_dir: Seq<char>, files: Seq<PathReport>) -> Map<
    Seq<char>,
    Document,
>
    decreases files.len(),
{
    if files.len() == 0 {
        Map::empty()
    } else {
        let file = files.last();
        let rest = initial_files(base_dir, files.drop_last());
        match file.observed {
            FileObservation::Read { modified, content } => rest.insert(
                key_of(file.resolved(), base_dir),
                document_read(file.resolved(), modified as int, content@),
            ),
            _ => rest,
        }
    }
}

/// Whether `key` is among `names`.
pub open spec fn names_hold(names: Seq<String>, key: Seq<char>) -> bool {
    exists|i: int| 0 <= i < names.len() && (#[trigger] names[i])@ == key
}

/// Whether `names` lists the keys of `files`: every key and nothing else,
/// in strictly ascending order, so each key once and the smallest first.
pub open spec fn lists(names: Seq<String>, files: Map<Seq<char>, Document>) -> bool {
    &&& forall|i: int, j: int|
        0 <= i < j < names.len() ==> text_lt((#[trigger] names[i])@, (#[trigger] names[j])@)
    &&& forall|key: Seq<char>| files.contains_key(key) == names_hold(names, key)
}

/// Whether `name` is the smallest key of `files`.
pub open spec fn is_first(name: Seq<char>, files: Map<Seq<char>, Document>) -> bool {
    &&& files.contains_key(name)
    &&& forall|key: Seq<char>| files.contains_key(key) && key != name ==> text_lt(name, key)
}

/// One tracked document with its key.
struct Entry {
    key: String,
    file: TrackedFile,
}

/// The key of the entry at place `i`.
spec fn key_at(entries: Seq<Entry>, i: int) -> Seq<char> {
    entries[i].key@
}

/// Whether the keys of `entries` ascend strictly.
spec fn ascending(entries: Seq<Entry>) -> bool {
    forall|i: int, j: int|
        0 <= i < j < entries.len() ==> text_lt(
            #[trigger] key_at(entries, i),
            #[trigger] key_at(entries, j),
        )
}

/// Whether some entry bears `key`.
spec fn holds(entries: Seq<Entry>, key: Seq<char>) -> bool {
    exists|i: int| 0 <= i < entries.len() && #[trigger] key_at(entries, i) == key
}

/// A place at which `key` stands among `entries`, where it stands at one.
spec fn place_of(entries: Seq<Entry>, key: Seq<char>) -> int {
    choose|i: int| 0 <= i < entries.len() && #[trigger] key_at(entries, i) == key
}

/// The documents that `entries` hold, by key.
spec fn files_of(entries: Seq<Entry>) -> Map<Seq<char>, Document> {
    Map::new(
        |key: Seq<char>| holds(entries, key),
        |key: Seq<char>| entries[place_of(entries, key)].file@,
    )
}

/// In ascending entries no two places bear the same key.
proof fn lemma_keys_differ(entries: Seq<Entry>, i: int, j: int)
    requires
        ascending(entries),
        0 <= i < entries.len(),
        0 <= j < entries.len(),
        i != j,
    ensures
        key_at(entries, i) != key_at(entries, j),
{
    let key = key_at(entries, i);
    lemma_text_lt_strict_total(key, key, key);
    if j < i {
        assert(text_lt(key_at(entries, j), key_at(entries, i)));
    } else {
        assert(text_lt(key_at(entries, i), key_at(entries, j)));
    }
}

/// The document under a key is the one of the entry that bears it.
proof fn lemma_files_of_at(entries: Seq<Entry>, i: int)
    requires
        ascending(entries),
        0 <= i < entries.len(),
    ensures
        holds(entries, key_at(entries, i)),
        place_of(entries, key_at(entries, i)) == i,
        files_of(entries).contains_key(entries[i].key@),
        files_of(entries)[entries[i].key@] == entries[i].file@,
{
    let j = place_of(entries, key_at(entries, i));
    if j != i {
        lemma_keys_differ(entries, i, j);
    }
}

/// A new entry between the smaller keys and the larger ones keeps the
/// order, and adds its document to those held.
proof fn lemma_insert_entry(entries: Seq<Entry>, at: int, entry: Entry)
    requires
        ascending(entries),
        0 <= at <= entries.len(),
        forall|k: int| 0 <= k < at ==> text_lt(#[trigger] key_at(entries, k), entry.key@),
        at < entries.len() ==> text_lt(entry.key@, key_at(entries, at)),
    ensures
        ascending(entries.insert(at, entry)),
        files_of(entries.insert(at, entry)) == files_of(entries).insert(entry.key@, entry.file@),
{
    let grown = entries.insert(at, entry);
    let key = entry.key@;
    assert forall|k: int| at <= k < entries.len() implies text_lt(
        key,
        #[trigger] key_at(entries, k),
    ) by {
        if at < k {
            assert(text_lt(key_at(entries, at), key_at(entries, k)));
            lemma_text_lt_strict_total(key, key_at(entries, at), key_at(entries, k));
        }
    }
    assert forall|i: int, j: int| 0 <= i < j < grown.len() implies text_lt(
        #[trigger] key_at(grown, i),
        #[trigger] key_at(grown, j),
    ) by {
        let a = if i < at { i } else { i - 1 };
        let b = if j < at { j } else { j - 1 };
        if i == at {
            assert(key_at(grown, j) == key_at(entries, b));
        } else if j == at {
            assert(key_at(grown, i) == key_at(entries, a));
        } else {
            assert(key_at(grown, i) == key_at(entries, a));
            assert(key_at(grown, j) == key_at(entries, b));
            assert(text_lt(key_at(entries, a), key_at(entries, b)));
        }
    }
    let wanted = files_of(entries).insert(key, entry.file@);
    assert forall|k: Seq<char>| files_of(grown).contains_key(k) == wanted.contains_key(k) by {
        if holds(grown, k) {
            let j = place_of(grown, k);
            if j < at {
                assert(key_at(entries, j) == k);
            } else if j > at {
                assert(key_at(entries, j - 1) == k);
            }
        }
        if holds(entries, k) {
            let j = place_of(entries, k);
            if j < at {
                assert(key_at(grown, j) == k);
            } else {
                assert(key_at(grown, j + 1) == k);
            }
        }
        if k == key {
            assert(key_at(grown, at) == k);
        }
    }
    assert forall|k: Seq<char>| files_of(grown).contains_key(k) implies files_of(grown)[k]
        == wanted[k] by {
        let j = place_of(grown, k);
        lemma_files_of_at(grown, j);
        if j != at {
            lemma_keys_differ(grown, j, at);
            let b = if j < at { j } else { j - 1 };
            assert(key_at(entries, b) == k);
            lemma_files_of_at(entries, b);
        }
    }
    assert(files_of(grown) =~= wanted);
}

/// Another document at a place that keeps its key keeps the order, and
/// takes the place of the old one among those held.
proof fn lemma_replace_entry(entries: Seq<Entry>, at: int, entry: Entry)
    requires
        ascending(entries),
        0 <= at < entries.len(),
        entry.key@ == key_at(entries, at),
    ensures
        ascending(entries.update(at, entry)),
        files_of(entries.update(at, entry)) == files_of(entries).insert(entry.key@, entry.file@),
{
    let changed = entries.update(at, entry);
    let key = entry.key@;
    assert forall|i: int| 0 <= i < entries.len() implies #[trigger] key_at(changed, i) == key_at(
        entries,
        i,
    ) by {}
    assert forall|i: int, j: int| 0 <= i < j < changed.len() implies text_lt(
        #[trigger] key_at(changed, i),
        #[trigger] key_at(changed, j),
    ) by {
        assert(text_lt(key_at(entries, i), key_at(entries, j)));
    }
    let wanted = files_of(entries).insert(key, entry.file@);
    assert forall|k: Seq<char>| files_of(changed).contains_key(k) == wanted.contains_key(k) by {
        if holds(changed, k) {
            let j = place_of(changed, k);
            assert(key_at(entries, j) == k);
        }
        if holds(entries, k) {
            let j = place_of(entries, k);
            assert(key_at(changed, j) == k);
        }
        if k == key {
            assert(key_at(changed, at) == k);
        }
    }
    assert forall|k: Seq<char>| files_of(changed).contains_key(k) implies files_of(changed)[k]
        == wanted[k] by {
        let j = place_of(changed, k);
        lemma_files_of_at(changed, j);
        if j != at {
            lemma_keys_differ(changed, j, at);
            assert(key_at(entries, j) == k);
            lemma_files_of_at(entries, j);
        }
    }
    assert(files_of(changed) =~= wanted);
}

/// The tracked documents, kept in the order of their keys.
struct Shelf {
    entries: Vec<Entry>,
}

impl Shelf {
    /// Entries are kept in ascending order of their keys.
    #[verifier::type_invariant]
    spec fn ordered(self) -> bool {
        ascending(self.entries@)
    }

    /// The documents on the shelf, by key.
    spec fn files(self) -> Map<Seq<char>, Document> {
        files_of(self.entries@)
    }

    /// A shelf without documents.
    fn new() -> (shelf: Shelf)
        ensures
            shelf.files() == Map::<Seq<char>, Document>::empty(),
    {
        let shelf = Shelf { entries: Vec::new() };
        assert(shelf.files() =~= Map::<Seq<char>, Document>::empty());
        shelf
    }

    /// The place of `key` among the entries.
    fn find(&self, key: &str) -> (at: Option<usize>)
        ensures
            match at {
                Some(i) => {
                    &&& i < self.entries@.len()
                    &&& key_at(self.entries@, i as int) == key@
                    &&& self.files().contains_key(key@)
                    &&& self.files()[key@] == self.entries@[i as int].file@
                },
                None => !self.files().contains_key(key@),
            },
    {
        proof {
            use_type_invariant(self);
        }
        let mut i: usize = 0;
        while i < self.entries.len()
            invariant
                ascending(self.entries@),
                i <= self.entries@.len(),
                forall|k: int| 0 <= k < i ==> #[trigger] key_at(self.entries@, k) != key@,
            decreases self.entries@.len() - i,
        {
            if str_eq(self.entries[i].key.as_str(), key) {
                proof {
                    lemma_files_of_at(self.entries@, i as int);
                }
                return Some(i);
            }
            i += 1;
        }
        None
    }

    /// The document at place `at`.
    fn file_at(&self, at: usize) -> (file: &TrackedFile)
        requires
            at < self.entries@.len(),
        ensures
            *file == self.entries@[at as int].file,
    {
        &self.entries[at].file
    }

    /// Puts `file` under `key`, in place of what was there.
    fn put(&mut self, key: String, file: TrackedFile)
        ensures
            final(self).files() == old(self).files().insert(key@, file@),
    {
        proof {
            use_type_invariant(&*self);
        }
        let mut at: usize = 0;
        while at < self.entries.len() && str_lt(self.entries[at].key.as_str(), key.as_str())
            invariant
                *self == *old(self),
                at <= self.entries@.len(),
                forall|k: int| 0 <= k < at ==> text_lt(#[trigger] key_at(self.entries@, k), key@),
            decreases self.entries@.len() - at,
        {
            at += 1;
        }
        let entry = Entry { key, file };
        let replace = at < self.entries.len() && str_eq(
            self.entries[at].key.as_str(),
            entry.key.as_str(),
        );
        proof {
            if replace {
                lemma_replace_entry(self.entries@, at as int, entry);
            } else {
                if at < self.entries@.len() {
                    lemma_text_lt_strict_total(
                        entry.key@,
                        key_at(self.entries@, at as int),
                        entry.key@,
                    );
                }
                lemma_insert_entry(self.entries@, at as int, entry);
            }
        }
        let mut entries: Vec<Entry> = Vec::new();
        std::mem::swap(&mut self.entries, &mut entries);
        if replace {
            entries[at] = entry;
        } else {
            entries.insert(at, entry);
        }
        self.entries = entries;
    }

    /// The keys of all documents, each once, in ascending order.
    fn keys(&self) -> (names: Vec<String>)
        ensures
            lists(names@, self.files()),
    {
        proof {
            use_type_invariant(self);
        }
        let mut names: Vec<String> = Vec::new();
        let mut i: usize = 0;
        while i < self.entries.len()
            invariant
                i <= self.entries@.len(),
                names@.len() == i,
                forall|k: int| 0 <= k < i ==> (#[trigger] names@[k])@ == key_at(self.entries@, k),
            decreases self.entries@.len() - i,
        {
            names.push(self.entries[i].key.clone());
            i += 1;
        }
        proof {
            assert forall|a: int, b: int| 0 <= a < b < names@.len() implies text_lt(
                (#[trigger] names@[a])@,
                (#[trigger] names@[b])@,
            ) by {
                assert(text_lt(key_at(self.entries@, a), key_at(self.entries@, b)));
            }
            assert forall|key: Seq<char>| self.files().contains_key(key) == names_hold(
                names@,
                key,
            ) by {
                if holds(self.entries@, key) {
                    let k = place_of(self.entries@, key);
                    assert((names@[k])@ == key);
                }
                if names_hold(names@, key) {
                    let k = choose|k: int| 0 <= k < names@.len() && (#[trigger] names@[k])@ == key;
                    assert(key_at(self.entries@, k) == key);
                }
            }
        }
        names
    }

    /// The smallest key, `None` on an empty shelf.
    fn first_key(&self) -> (first: Option<String>)
        ensures
            match first {
                Some(name) => is_first(name@, self.files()),
                None => forall|key: Seq<char>| !self.files().contains_key(key),
            },
    {
        proof {
            use_type_invariant(self);
        }
        if self.entries.len() == 0 {
            return None;
        }
        let name = self.entries[0].key.clone();
        proof {
            lemma_files_of_at(self.entries@, 0);
            assert forall|key: Seq<char>| self.files().contains_key(key) && key
                != name@ implies text_lt(name@, key) by {
                let at = place_of(self.entries@, key);
                assert(key_at(self.entries@, at) == key);
                assert(text_lt(key_at(self.entries@, 0), key_at(self.entries@, at)));
            }
        }
        Some(name)
    }
}

/// The messages that a hub has published, each with the documents of its
/// moment: `snapshots` holds, place by place, what the store held when the
/// message at that place went out.
spec fn publications(
    messages: Seq<ServerMessage>,
    snapshots: Seq<Map<Seq<char>, Document>>,
) -> Seq<Publication> {
    Seq::new(
        messages.len(),
        |i: int| Publication { message: messages[i], files: snapshots[i] },
    )
}

/// The store of tracked documents, with the channel over which viewers are
/// told to reload.
pub struct MarkdownState {
    base_dir: String,
    shelf: Shelf,
    is_directory_mode: bool,
    hub: ReloadHub,
    /// What the shelf held at the moment of each message that went out
    /// through `hub`, oldest first.
    snapshots: Ghost<Seq<Map<Seq<char>, Document>>>,
}

impl View for MarkdownState {
    type V = StoreView;

    closed spec fn view(&self) -> StoreView {
        StoreView {
            base_dir: self.base_dir@,
            is_directory_mode: self.is_directory_mode,
            files: self.shelf.files(),
            published: publications(self.hub.published(), self.snapshots@),
            channel: self.hub.channel(),
        }
    }
}

impl MarkdownState {
    /// Whether the document set is open: the store serves a directory and
    /// shows its navigation.
    pub fn show_navigation(&self) -> (shown: bool)
        ensures
            shown == self@.is_directory_mode,
    {
        self.is_directory_mode
    }

    /// The directory that keys are relative to.
    pub fn base_dir(&self) -> (dir: &str)
        ensures
            dir@ == self@.base_dir,
    {
        self.base_dir.as_str()
    }

    /// Whether a document is tracked under `key`.
    pub fn is_tracked(&self, key: &str) -> (yes: bool)
        ensures
            yes == self@.tracks(key@),
    {
        self.shelf.find(key).is_some()
    }

    /// Whether a file last modified at `modified` is newer than the reading
    /// of it that the store holds under `key`. False for a key that is not
    /// tracked.
    pub fn is_stale(&self, key: &str, modified: i128) -> (yes: bool)
        ensures
            yes == self@.stale(key@, modified as int),
    {
        match self.shelf.find(key) {
            Some(at) => modified > self.shelf.file_at(at).last_modified,
            None => false,
        }
    }

    /// The document tracked under `key`, if there is one.
    pub fn get(&self, key: &str) -> (found: Option<&TrackedFile>)
        ensures
            match found {
                Some(file) => self@.tracks(key@) && file@ == self@.files[key@],
                None => !self@.tracks(key@),
            },
    {
        match self.shelf.find(key) {
            Some(at) => Some(self.shelf.file_at(at)),
            None => None,
        }
    }

    /// A store rooted at `base_dir` that tracks `files`, each under its key
    /// and as it was read. Fails on the first file that could not be read,
    /// with the step at which that file failed.
    pub fn new(base_dir: String, files: Vec<PathReport>, is_directory_mode: bool) -> (made: Result<
        MarkdownState,
        FileError,
    >)
        ensures
            match made {
                Ok(state) => {
                    &&& forall|i: int|
                        0 <= i < files@.len() ==> #[trigger] files@[i].observed is Read
                    &&& state@.base_dir == base_dir@
                    &&& state@.is_directory_mode == is_directory_mode
                    &&& state@.files == initial_files(base_dir@, files@)
                    &&& state@.published == Seq::<Publication>::empty()
                },
                Err(error) => exists|i: int|
                    {
                        &&& 0 <= i < files@.len()
                        &&& observation_error(#[trigger] files@[i].observed) == Some(error)
                        &&& forall|j: int| 0 <= j < i ==> #[trigger] files@[j].observed is Read
                    },
            },
    {
        let mut state = MarkdownState {
            base_dir,
            shelf: Shelf::new(),
            is_directory_mode,
            hub: ReloadHub::new(),
            snapshots: Ghost(Seq::empty()),
        };
        assert(state@.files =~= initial_files(base_dir@, files@.take(0)));
        assert(state@.published =~= Seq::<Publication>::empty());
        let mut i: usize = 0;
        while i < files.len()
            invariant
                i <= files@.len(),
                state@.base_dir == base_dir@,
                state@.is_directory_mode == is_directory_mode,
                state@.published == Seq::<Publication>::empty(),
                state@.files == initial_files(base_dir@, files@.take(i as int)),
                forall|j: int| 0 <= j < i ==> #[trigger] files@[j].observed is Read,
            decreases files@.len() - i,
        {
            let file = &files[i];
            proof {
                assert(files@.take(i + 1).drop_last() =~= files@.take(i as int));
                assert(files@.take(i + 1).last() == files@[i as int]);
            }
            match &file.observed {
                FileObservation::MetadataFailed => {
                    return Err(FileError::Metadata);
                },
                FileObservation::Unread { .. } => {
                    return Err(FileError::Content);
                },
                FileObservation::Read { modified, content } => {
                    let html = markdown_to_html(content.as_str());
                    let path = file.resolved_path();
                    let key = document_key(path, state.base_dir.as_str());
                    let path = path.to_owned();
                    state.shelf.put(key, TrackedFile { path, last_modified: *modified, html });
                },
            }
            i += 1;
        }
        assert(files@.take(i as int) =~= files@);
        Ok(state)
    }

    /// The keys of all tracked documents, each once, in ascending order.
    pub fn get_sorted_filenames(&self) -> (names: Vec<String>)
        ensures
            lists(names@, self@.files),
    {
        self.shelf.keys()
    }

    /// Brings the document under `filename` up to date with an observation
    /// of its file. Where the file was read and is strictly newer than the
    /// stored reading, the time and the HTML are replaced together. A file
    /// that is no newer changes nothing, nor does a key that is not
    /// tracked. Where the observation failed at a step that was needed, the
    /// error says which, and the stored document stays as it was.
    pub fn refresh_file(&mut self, filename: &str, observed: &FileObservation) -> (outcome: Result<
        (),
        FileError,
    >)
        ensures
            final(self)@ == old(self)@.refreshed(filename@, *observed),
            outcome == old(self)@.refresh_outcome(filename@, *observed),
    {
        let at = match self.shelf.find(filename) {
            Some(at) => at,
            None => {
                return Ok(());
            },
        };
        match observed {
            FileObservation::MetadataFailed => Err(FileError::Metadata),
            FileObservation::Unread { modified } => {
                if *modified > self.shelf.file_at(at).last_modified {
                    Err(FileError::Content)
                } else {
                    Ok(())
                }
            },
            FileObservation::Read { modified, content } => {
                if *modified > self.shelf.file_at(at).last_modified {
                    let html = markdown_to_html(content.as_str());
                    let path = self.shelf.file_at(at).path.clone();
                    let document = TrackedFile { path, last_modified: *modified, html };
                    self.shelf.put(filename.to_owned(), document);
                }
                Ok(())
            },
        }
    }

    /// Offers the file that `file` reports of to the store. The file is
    /// known by the key of its resolved path, the canonical one where
    /// there is one, as it is when a store is made. A store in directory
    /// mode that does not track that key yet takes the file in as read; an
    /// observation that failed is reported and changes nothing. A store in
    /// single-file mode, or one that tracks the key already, stays as it
    /// is and reports success.
    pub fn add_tracked_file(&mut self, file: &PathReport) -> (outcome: Result<(), FileError>)
        ensures
            final(self)@ == old(self)@.admitted(*file),
            outcome == old(self)@.admit_outcome(*file),
    {
        if !self.is_directory_mode {
            return Ok(());
        }
        let path = file.resolved_path();
        let key = document_key(path, self.base_dir.as_str());
        if self.shelf.find(key.as_str()).is_some() {
            return Ok(());
        }
        match &file.observed {
            FileObservation::MetadataFailed => Err(FileError::Metadata),
            FileObservation::Unread { .. } => Err(FileError::Content),
            FileObservation::Read { modified, content } => {
                let html = markdown_to_html(content.as_str());
                let path = path.to_owned();
                self.shelf.put(key, TrackedFile { path, last_modified: *modified, html });
                Ok(())
            },
        }
    }

    /// The key of the document that is served at the root: the smallest,
    /// `None` while the store is empty.
    pub fn first_filename(&self) -> (first: Option<String>)
        ensures
            match first {
                Some(name) => is_first(name@, self@.files),
                None => forall|key: Seq<char>| !self@.tracks(key),
            },
    {
        self.shelf.first_key()
    }

    /// Tells every viewer that is connected now to reload, and returns
    /// how many there are. The message goes on record with the documents
    /// as the store holds them at this moment: what a viewer finds who
    /// fetches a page on receiving it, unless the store has moved on.
    pub fn publish_reload(&mut self) -> (receivers: usize)
        ensures
            final(self)@ == old(self)@.announced(ServerMessage::Reload),
    {
        let ghost before = self.hub.published();
        let ghost taken = self.snapshots@;
        let ghost files = self.shelf.files();
        let receivers = self.hub.publish(ServerMessage::Reload);
        proof {
            self.snapshots@ = Seq::new(
                before.len() + 1,
                |i: int| if i < before.len() { taken[i] } else { files },
            );
            assert(publications(self.hub.published(), self.snapshots@) =~= publications(
                before,
                taken,
            ).push(Publication { message: ServerMessage::Reload, files }));
        }
        receivers
    }

    /// A subscription for one viewer, on the channel that this store's
    /// reloads go out through, and stays the store's whatever is done to
    /// the store afterwards. tokio hands it the reloads that are published
    /// from now on.
    pub fn subscribe(&self) -> (rx: tokio::sync::broadcast::Receiver<ServerMessage>)
        ensures
            self@.feeds(rx),
    {
        self.hub.subscribe()
    }
}

} // verus!
