//! The change tracker: for every file that a request refers to it decides
//! whether the file is sent in full, as its changes since it was last sent,
//! or not at all.

use crate::chat::{user_message, with_changes, Builder, Message, MessageView, Role};
use crate::diff::{
    edits_of, law_identical_texts_match, range_of_arg, text_script, DiffsManager,
    Range,
};
use crate::script::lemma_matches_hold_no_edit;
use crate::text::lines_of;
use crate::errors::{ChatError, ChatFault};
use crate::files::{
    load_once_text, path_of, path_of_arg, reference_text, Readable, Timestamp, TrackedFile,
    TrackedFileView,
};
use crate::myers::Edit;
use vstd::prelude::*;
use vstd::string::StringExecFns;

verus! {

/// What was found of a file on disk: its content and its time of
/// modification.
#[derive(Debug, Clone, PartialEq)]
pub struct FileSnapshot {
    pub content: String,
    pub modified: Timestamp,
}

/// The mathematical value of a [`FileSnapshot`].
pub struct SnapshotView {
    pub content: Seq<char>,
    pub modified: Timestamp,
}

impl View for FileSnapshot {
    type V = SnapshotView;

    open spec fn view(&self) -> SnapshotView {
        SnapshotView { content: self.content@, modified: self.modified }
    }
}

/// The view of what the reader of a file reports: the snapshot, or the
/// cause for which the file could not be read.
pub open spec fn observed_view(observed: Result<FileSnapshot, String>) -> Result<
    SnapshotView,
    Seq<char>,
> {
    match observed {
        Ok(snapshot) => Ok(snapshot@),
        Err(cause) => Err(cause@),
    }
}

/// The changes of a resource against what was found on disk: none where the
/// resource is as recent as the file, else the script from the resource's
/// content to the file's.
pub open spec fn changes_since(content: Seq<char>, modified: Timestamp, found: SnapshotView) -> Option<
    Seq<Edit>,
> {
    if modified.nanos >= found.modified.nanos {
        None
    } else {
        Some(text_script(content, found.content))
    }
}

/// The view of what `get_diffs` returns.
pub open spec fn changes_view(r: Option<DiffsManager>) -> Option<Seq<Edit>> {
    match r {
        Some(manager) => Some(edits_of(manager.diffs@)),
        None => None,
    }
}

/// Brings what was found on disk into a readable resource.
pub trait ReaderTool {
    /// Takes over what was found on disk as the content and the time of
    /// modification of `readable`. Where the file could not be read, the
    /// cause is reported and `readable` stays as it was.
    fn read<R: Readable>(&self, readable: &mut R, observed: Result<FileSnapshot, String>) -> (r:
        Result<(), ChatError>)
        ensures
            final(readable).location_view() == old(readable).location_view(),
            match observed {
                Ok(snapshot) => r is Ok && final(readable).content_view() == snapshot.content@
                    && final(readable).modified_view() == snapshot.modified,
                Err(cause) => r == Err::<(), ChatError>(ChatError::Tool(cause))
                    && final(readable).content_view() == old(readable).content_view()
                    && final(readable).modified_view() == old(readable).modified_view(),
            },
    ;

    /// The line-level changes between what `readable` holds and what was
    /// found on disk, if the file was modified after `readable` was read.
    fn get_diffs<R: Readable>(&self, readable: &R, found: &FileSnapshot) -> (r: Option<
        DiffsManager,
    >)
        ensures
            changes_view(r) == changes_since(
                readable.content_view(),
                readable.modified_view(),
                found@,
            ),
    {
        if readable.modified_time().is_at_or_after(&found.modified) {
            return None;
        }
        Some(DiffsManager::from_texts(readable.content(), found.content.as_str()))
    }

    /// Records the time of modification that was found on disk.
    fn update_modified_time<R: Readable>(&self, readable: &mut R, modified: Timestamp)
        ensures
            final(readable).modified_view() == modified,
            final(readable).location_view() == old(readable).location_view(),
            final(readable).content_view() == old(readable).content_view(),
    {
        readable.set_modified_time(modified);
    }
}

/// Reads files.
pub struct FileReader;

impl ReaderTool for FileReader {
    fn read<R: Readable>(&self, readable: &mut R, observed: Result<FileSnapshot, String>) -> (r:
        Result<(), ChatError>) {
        match observed {
            Ok(snapshot) => {
                readable.set_content(snapshot.content);
                readable.set_modified_time(snapshot.modified);
                Ok(())
            },
            Err(cause) => Err(ChatError::Tool(cause)),
        }
    }
}

/// Position of the first tracked file with the given path at or after
/// `from`, or `files.len()` when there is none.
pub open spec fn tracked_position(files: Seq<TrackedFileView>, path: Seq<char>, from: int) -> int
    decreases files.len() - from,
{
    if from < 0 || from >= files.len() {
        files.len() as int
    } else if files[from].path == path {
        from
    } else {
        tracked_position(files, path, from + 1)
    }
}

/// `tracked_position` returns a position in `from..=files.len()`; the file
/// there has the path, unless the end was reached, and no file before it has.
pub proof fn lemma_tracked_position(files: Seq<TrackedFileView>, path: Seq<char>, from: int)
    requires
        0 <= from <= files.len(),
    ensures
        from <= tracked_position(files, path, from) <= files.len(),
        tracked_position(files, path, from) < files.len() ==> files[tracked_position(
            files,
            path,
            from,
        )].path == path,
        forall|j: int| from <= j < tracked_position(files, path, from) ==> files[j].path != path,
    decreases files.len() - from,
{
    if from < files.len() && files[from].path != path {
        lemma_tracked_position(files, path, from + 1);
    }
}

/// The files that are tracked and the messages of the request after a file
/// was referred to.
pub struct Referenced {
    pub files: Seq<TrackedFileView>,
    pub messages: Seq<MessageView>,
}

/// What referring to the file argument `arg` does, given what was found of
/// the file on disk.
///
/// A file that could not be read is a fault. A path that is not tracked is
/// tracked from now on with what was found, and the file is shown in full,
/// followed by the reference. A tracked file that was not modified after it
/// was last sent gets the reference alone. A tracked file that was modified
/// gets its changes, then the reference, and is tracked with what was found.
/// No other tracked file is touched.
pub open spec fn reference_model(
    files: Seq<TrackedFileView>,
    messages: Seq<MessageView>,
    arg: Seq<char>,
    observed: Result<SnapshotView, Seq<char>>,
) -> Result<Referenced, ChatFault> {
    let path = path_of_arg(arg);
    let marker = user_message(reference_text(path, range_of_arg(arg)));
    let at = tracked_position(files, path, 0);
    match observed {
        Err(cause) => Err(ChatFault::Tool(cause)),
        Ok(found) => if at >= files.len() {
            Ok(
                Referenced {
                    files: files.push(
                        TrackedFileView { path, content: found.content, modified: found.modified },
                    ),
                    messages: messages.push(user_message(load_once_text(path, found.content))).push(
                        marker,
                    ),
                },
            )
        } else {
            match changes_since(files[at].content, files[at].modified, found) {
                None => Ok(Referenced { files, messages: messages.push(marker) }),
                Some(script) => Ok(
                    Referenced {
                        files: files.update(
                            at,
                            TrackedFileView {
                                path,
                                content: found.content,
                                modified: found.modified,
                            },
                        ),
                        messages: with_changes(messages, script, path).push(marker),
                    },
                ),
            }
        },
    }
}

/// The files that were shown to the service in this session.
pub struct ChangeTracker {
    files: Vec<TrackedFile>,
}

impl View for ChangeTracker {
    type V = Seq<TrackedFileView>;

    closed spec fn view(&self) -> Seq<TrackedFileView> {
        Seq::new(self.files@.len(), |i: int| self.files@[i]@)
    }
}

impl ChangeTracker {
    /// A tracker that tracks no file.
    pub fn new() -> (r: Self)
        ensures
            r@ == Seq::<TrackedFileView>::empty(),
    {
        let r = Self { files: Vec::new() };
        assert(r@ == Seq::<TrackedFileView>::empty());
        r
    }

    /// A tracker that tracks the given files.
    pub fn with_files(files: Vec<TrackedFile>) -> (r: Self)
        ensures
            r@ == Seq::new(files@.len(), |i: int| files@[i]@),
    {
        Self { files }
    }

    /// The number of tracked files.
    pub fn len(&self) -> (n: usize)
        ensures
            n == self@.len(),
    {
        self.files.len()
    }

    /// The tracked file at `index`.
    pub fn get(&self, index: usize) -> (r: Option<&TrackedFile>)
        ensures
            match r {
                Some(file) => index < self@.len() && file@ == self@[index as int],
                None => index >= self@.len(),
            },
    {
        if index < self.files.len() {
            Some(&self.files[index])
        } else {
            None
        }
    }

    /// Position of the tracked file with the given path.
    pub fn position(&self, path: &str) -> (r: Option<usize>)
        ensures
            match r {
                Some(at) => at < self@.len() && at == tracked_position(self@, path@, 0),
                None => tracked_position(self@, path@, 0) >= self@.len(),
            },
    {
        let wanted = String::from_str(path);
        let mut i: usize = 0;
        while i < self.files.len()
            invariant
                i <= self.files.len(),
                wanted@ == path@,
                tracked_position(self@, path@, 0) == tracked_position(self@, path@, i as int),
            decreases self.files.len() - i,
        {
            assert(self@[i as int] == self.files@[i as int]@);
            if self.files[i].is_at(&wanted) {
                return Some(i);
            }
            i += 1;
        }
        None
    }

    /// Refers to the file that the argument `arg` names, given what was
    /// found of the file on disk. The messages for the request are appended
    /// to `builder`. Where the outcome is a fault, neither the tracker nor
    /// the builder changes.
    pub fn reference(
        &mut self,
        arg: &str,
        observed: Result<FileSnapshot, String>,
        builder: &mut Builder,
    ) -> (r: Result<(), ChatError>)
        ensures
            match reference_model(old(self)@, old(builder)@, arg@, observed_view(observed)) {
                Ok(referenced) => r is Ok && final(self)@ == referenced.files && final(builder)@
                    == referenced.messages,
                Err(fault) => r is Err && r->Err_0@ == fault && final(self)@ == old(self)@
                    && final(builder)@ == old(builder)@,
            },
    {
        let found = match observed {
            Ok(found) => found,
            Err(cause) => {
                return Err(ChatError::Tool(cause));
            },
        };
        let path = path_of(arg);
        let range = Range::from_file_arg(arg);
        let ghost before = self@;
        proof {
            lemma_tracked_position(before, path@, 0);
        }
        match self.position(path.as_str()) {
            None => {
                let file = TrackedFile::with_content(path, found.content, found.modified);
                builder.with(Message { role: Role::User, content: file.prepare_load_once() });
                builder.with(Message { role: Role::User, content: file.reference_marker(range.as_ref()) });
                self.files.push(file);
                assert(self@ == before.push(file@));
                Ok(())
            },
            Some(at) => {
                assert(before[at as int] == self.files@[at as int]@);
                let reader = FileReader;
                match reader.get_diffs(&self.files[at], &found) {
                    None => {
                        builder.with(
                            Message {
                                role: Role::User,
                                content: self.files[at].reference_marker(range.as_ref()),
                            },
                        );
                    },
                    Some(manager) => {
                        builder.with_diffs(&manager, path.as_str());
                        let file = TrackedFile::with_content(path, found.content, found.modified);
                        builder.with(
                            Message { role: Role::User, content: file.reference_marker(range.as_ref()) },
                        );
                        self.files.set(at, file);
                        assert(self@ == before.update(at as int, file@));
                    },
                }
                Ok(())
            },
        }
    }
}

/// The first reference to a path shows the file in full, whatever the
/// tracker holds for other paths, and then refers to it.
pub proof fn law_first_reference_loads_once(
    files: Seq<TrackedFileView>,
    messages: Seq<MessageView>,
    arg: Seq<char>,
    found: SnapshotView,
)
    requires
        tracked_position(files, path_of_arg(arg), 0) >= files.len(),
    ensures
        reference_model(files, messages, arg, Ok(found)) matches Ok(referenced)
            && referenced.messages == messages.push(
            user_message(load_once_text(path_of_arg(arg), found.content)),
        ).push(user_message(reference_text(path_of_arg(arg), range_of_arg(arg))))
            && referenced.files == files.push(
            TrackedFileView {
                path: path_of_arg(arg),
                content: found.content,
                modified: found.modified,
            },
        ),
{
}

/// A tracked file whose time of modification on disk is not later than the
/// one it was sent with gets no changes attached: the reference is the only
/// message, and the tracker stays as it is.
pub proof fn law_unmodified_file_sends_nothing(
    files: Seq<TrackedFileView>,
    messages: Seq<MessageView>,
    arg: Seq<char>,
    found: SnapshotView,
)
    requires
        tracked_position(files, path_of_arg(arg), 0) < files.len(),
        found.modified.nanos <= files[tracked_position(
            files,
            path_of_arg(arg),
            0,
        )].modified.nanos,
    ensures
        reference_model(files, messages, arg, Ok(found)) == Ok::<Referenced, ChatFault>(
            Referenced {
                files,
                messages: messages.push(
                    user_message(reference_text(path_of_arg(arg), range_of_arg(arg))),
                ),
            },
        ),
{
}

/// A reference changes at most the entry of the file it names: every other
/// tracked file stays as it is, and no file stops being tracked.
pub proof fn law_reference_touches_one_file(
    files: Seq<TrackedFileView>,
    messages: Seq<MessageView>,
    arg: Seq<char>,
    observed: Result<SnapshotView, Seq<char>>,
)
    ensures
        reference_model(files, messages, arg, observed) matches Ok(referenced) ==> files.len()
            <= referenced.files.len() <= files.len() + 1 && forall|i: int|
            0 <= i < files.len() && i != tracked_position(files, path_of_arg(arg), 0)
                ==> referenced.files[i] == files[i],
{
    lemma_tracked_position(files, path_of_arg(arg), 0);
}

/// What the tracker holds for a file is what was last sent of it: after a
/// reference the entry of the file either is as it was, and then nothing of
/// the file but the reference was sent, or it holds what was found on disk.
pub proof fn law_baseline_is_what_was_sent(
    files: Seq<TrackedFileView>,
    messages: Seq<MessageView>,
    arg: Seq<char>,
    found: SnapshotView,
)
    ensures
        reference_model(files, messages, arg, Ok(found)) matches Ok(referenced) ==> ({
            let path = path_of_arg(arg);
            let at = tracked_position(files, path, 0);
            let marker = user_message(reference_text(path, range_of_arg(arg)));
            let sent = TrackedFileView { path, content: found.content, modified: found.modified };
            &&& 0 <= at < referenced.files.len()
            &&& referenced.files[at].path == path
            &&& referenced.files[at] == sent || (at < files.len() && referenced.files[at]
                == files[at] && referenced.messages == messages.push(marker))
        }),
{
    lemma_tracked_position(files, path_of_arg(arg), 0);
}

/// A tracked file that was written again with the content it had gets no
/// changes attached: the reference is the only message, and the tracker
/// takes over the new time of modification.
pub proof fn law_identical_content_sends_nothing(
    files: Seq<TrackedFileView>,
    messages: Seq<MessageView>,
    arg: Seq<char>,
    found: SnapshotView,
)
    requires
        tracked_position(files, path_of_arg(arg), 0) < files.len(),
        found.content == files[tracked_position(files, path_of_arg(arg), 0)].content,
        found.modified.nanos > files[tracked_position(files, path_of_arg(arg), 0)].modified.nanos,
    ensures
        reference_model(files, messages, arg, Ok(found)) == Ok::<Referenced, ChatFault>(
            Referenced {
                files: files.update(
                    tracked_position(files, path_of_arg(arg), 0),
                    TrackedFileView {
                        path: path_of_arg(arg),
                        content: found.content,
                        modified: found.modified,
                    },
                ),
                messages: messages.push(
                    user_message(reference_text(path_of_arg(arg), range_of_arg(arg))),
                ),
            },
        ),
{
    law_identical_texts_match(found.content);
    lemma_matches_hold_no_edit(lines_of(found.content), 0, lines_of(found.content).len() as int);
}

} // verus!
