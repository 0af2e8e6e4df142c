//! Object storage in a directory: what is decided between the accesses to the
//! file system.
//!
//! An object is a file under the root directory, and its etag is in a file
//! beside it. The accesses themselves are made by the one who drives the
//! storage.

use crate::outside::{fresh_uuid, is_uuid_text, utc_now};
use crate::storage::{
    already_there, ObjectMeta, ObjectMetaView, StorageError, StorageErrorView, StorageResult,
};
use crate::text::{finishes_with, lemma_utf8_injective, text_eq};
use chrono::NaiveDateTime;
use vstd::prelude::*;
use vstd::string::*;
use vstd::utf8::*;

verus! {

/// The name of the file that holds the etag of `key`.
pub open spec fn etag_file(key: Seq<char>) -> Seq<char> {
    key + ".etag"@
}

/// The name of the file that holds the etag of `key`.
pub fn etag_name(key: &str) -> (name: String)
    ensures
        name@ == etag_file(key@),
{
    let mut name = key.to_string();
    name.append(".etag");
    name
}

/// Why a file could not be read.
#[derive(Debug)]
pub struct ReadFailure {
    /// The file does not exist.
    pub not_found: bool,
    /// What the file system says.
    pub message: String,
}

/// The error for a file of `key` that could not be read.
pub open spec fn failure_of(key: Seq<char>, failure: ReadFailure) -> StorageErrorView {
    if failure.not_found {
        StorageErrorView::NotFound(key)
    } else {
        StorageErrorView::Backend(failure.message@)
    }
}

/// The error for a file of `key` that could not be read.
pub fn read_error(key: &str, failure: ReadFailure) -> (e: StorageError)
    ensures
        e@ == failure_of(key@, failure),
{
    if failure.not_found {
        StorageError::NotFound(key.to_string())
    } else {
        StorageError::Backend(failure.message)
    }
}

/// The etag that was read is `if_match`.
pub open spec fn is_match(current: Result<String, ReadFailure>, if_match: Seq<char>) -> bool {
    current matches Ok(etag) && etag@ == if_match
}

/// A write on the condition that the etag is `if_match` may go on: the etag
/// that was read is that one.
pub fn check_match(key: &str, current: Result<String, ReadFailure>, if_match: &str) -> (result:
    StorageResult<()>)
    ensures
        result is Ok == is_match(current, if_match@),
        match current {
            Err(f) => result matches Err(e) && e@ == failure_of(key@, f),
            Ok(etag) => if etag@ == if_match@ {
                result is Ok
            } else {
                result matches Err(e) && e@ == (StorageErrorView::EtagMismatch {
                    key: key@,
                    expected: if_match@,
                    got: etag@,
                })
            },
        },
{
    match current {
        Err(f) => Err(read_error(key, f)),
        Ok(etag) => if text_eq(etag.as_str(), if_match) {
            Ok(())
        } else {
            Err(
                StorageError::EtagMismatch {
                    key: key.to_string(),
                    expected: if_match.to_string(),
                    got: etag,
                },
            )
        },
    }
}

/// A write on the condition that nothing is there may go on.
pub fn check_absent(key: &str, taken: bool) -> (result: StorageResult<()>)
    ensures
        if taken {
            result matches Err(e) && e@ == already_there(key@)
        } else {
            result is Ok
        },
{
    if taken {
        Err(
            StorageError::EtagMismatch {
                key: key.to_string(),
                expected: "(absent)".to_string(),
                got: "(present)".to_string(),
            },
        )
    } else {
        Ok(())
    }
}

/// An access to the file system in writing an object.
#[derive(Clone, Copy, Debug, PartialEq, Eq, Structural)]
pub enum WriteAction {
    /// Create the directory of the object's file.
    MakeParent,
    /// Write the data to the temporary file.
    WriteTemporary,
    /// Write the new etag to the temporary file for it.
    WriteTemporaryEtag,
    /// Keep the object's file, if there is one, under a second name.
    KeepOld,
    /// Rename the temporary file to the object's file.
    Rename,
    /// Rename the temporary file with the new etag to the file for the etag.
    RenameEtag,
    /// Undoing: rename the file that was kept to the object's file.
    RestoreOld,
    /// Undoing: remove the object's file.
    RemoveNew,
    /// Remove the file that was kept.
    RemoveOld,
    /// Undoing: remove the temporary file for the etag.
    RemoveTemporaryEtag,
    /// Undoing: remove the temporary file.
    RemoveTemporary,
}

/// What became of an access.
pub enum Access {
    /// It was made.
    Done,
    /// The file that was to be kept does not exist.
    Missing,
    /// It failed, with this message.
    Failed(String),
}

/// An [`Access`] with its message as a character sequence.
pub enum AccessView {
    Done,
    Missing,
    Failed(Seq<char>),
}

impl View for Access {
    type V = AccessView;

    open spec fn view(&self) -> AccessView {
        match self {
            Access::Done => AccessView::Done,
            Access::Missing => AccessView::Missing,
            Access::Failed(m) => AccessView::Failed(m@),
        }
    }
}

/// What is known of the file that an object had before it is written.
#[derive(Clone, Copy, Debug, PartialEq, Eq, Structural)]
pub enum OldFile {
    /// Nothing yet.
    Unknown,
    /// There was none.
    Missing,
    /// It is kept under a second name.
    Kept,
    /// It could not be kept.
    Unkept,
}

/// An object that is being written.
///
/// The data is written to a temporary file, which then takes the place of the
/// object's file at one stroke; so does the etag. Where the second stroke fails,
/// the first is undone.
pub struct ObjectWrite {
    pub key: String,
    /// The name of the temporary file.
    pub temporary: String,
    pub etag: String,
    pub size: u64,
    pub old: OldFile,
    /// Why the write failed, once it has.
    pub failure: Option<String>,
    pub action: WriteAction,
}

/// An [`ObjectWrite`] with its texts as character sequences.
pub struct WriteView {
    pub key: Seq<char>,
    pub temporary: Seq<char>,
    pub etag: Seq<char>,
    pub size: u64,
    pub old: OldFile,
    pub failure: Option<Seq<char>>,
    pub action: WriteAction,
}

impl View for ObjectWrite {
    type V = WriteView;

    open spec fn view(&self) -> WriteView {
        WriteView {
            key: self.key@,
            temporary: self.temporary@,
            etag: self.etag@,
            size: self.size,
            old: self.old,
            failure: match self.failure {
                Some(m) => Some(m@),
                None => None,
            },
            action: self.action,
        }
    }
}

/// How the writing of an object goes on.
pub enum WriteProgress {
    Next(ObjectWrite),
    Done(StorageResult<ObjectMeta>),
}

/// A [`WriteProgress`] by its views.
pub enum WriteStep {
    Next(WriteView),
    Done(Result<ObjectMetaView, StorageErrorView>),
}

impl View for WriteProgress {
    type V = WriteStep;

    open spec fn view(&self) -> WriteStep {
        match self {
            WriteProgress::Next(w) => WriteStep::Next(w@),
            WriteProgress::Done(Ok(meta)) => WriteStep::Done(Ok(meta@)),
            WriteProgress::Done(Err(e)) => WriteStep::Done(Err(e@)),
        }
    }
}

/// The access serves to undo what was done, or to leave nothing behind.
pub open spec fn serves_undoing(action: WriteAction) -> bool {
    match action {
        WriteAction::MakeParent => false,
        WriteAction::WriteTemporary => false,
        WriteAction::WriteTemporaryEtag => false,
        WriteAction::Rename => false,
        WriteAction::RenameEtag => false,
        _ => true,
    }
}

impl WriteView {
    /// The write goes on with the given access.
    pub open spec fn with(self, action: WriteAction) -> WriteStep {
        WriteStep::Next(WriteView { action, ..self })
    }

    /// The write has failed, and goes on with the given access.
    pub open spec fn failing(self, m: Seq<char>, action: WriteAction) -> WriteStep {
        WriteStep::Next(WriteView { action, failure: Some(m), ..self })
    }

    /// The write knows of the old file, and goes on to replace it.
    pub open spec fn knowing(self, old: OldFile) -> WriteStep {
        WriteStep::Next(WriteView { action: WriteAction::Rename, old, ..self })
    }

    /// The write has succeeded, at the time `now`.
    pub open spec fn succeeding(self, now: NaiveDateTime) -> WriteStep {
        WriteStep::Done(
            Ok(
                ObjectMetaView {
                    key: self.key,
                    size: self.size,
                    etag: self.etag,
                    last_modified: now,
                },
            ),
        )
    }

    /// How the write goes on after the current access came out so, at the time
    /// `now`. After a failure, what was done is undone. That the old file cannot
    /// be kept, or a file not be removed, is no failure of the write.
    pub open spec fn next(self, outcome: AccessView, now: NaiveDateTime) -> WriteStep {
        match (self.action, outcome) {
            (WriteAction::MakeParent, AccessView::Failed(m)) => WriteStep::Done(
                Err(StorageErrorView::Backend(m)),
            ),
            (WriteAction::MakeParent, _) => self.with(WriteAction::WriteTemporary),
            (WriteAction::WriteTemporary, AccessView::Failed(m)) => self.failing(
                m,
                WriteAction::RemoveTemporary,
            ),
            (WriteAction::WriteTemporary, _) => self.with(WriteAction::WriteTemporaryEtag),
            (WriteAction::WriteTemporaryEtag, AccessView::Failed(m)) => self.failing(
                m,
                WriteAction::RemoveTemporaryEtag,
            ),
            (WriteAction::WriteTemporaryEtag, _) => self.with(WriteAction::KeepOld),
            (WriteAction::KeepOld, AccessView::Done) => self.knowing(OldFile::Kept),
            (WriteAction::KeepOld, AccessView::Missing) => self.knowing(OldFile::Missing),
            (WriteAction::KeepOld, AccessView::Failed(_)) => self.knowing(OldFile::Unkept),
            (WriteAction::Rename, AccessView::Failed(m)) => self.failing(
                m,
                if self.old == OldFile::Kept {
                    WriteAction::RemoveOld
                } else {
                    WriteAction::RemoveTemporaryEtag
                },
            ),
            (WriteAction::Rename, _) => self.with(WriteAction::RenameEtag),
            (WriteAction::RenameEtag, AccessView::Failed(m)) => self.failing(
                m,
                match self.old {
                    OldFile::Kept => WriteAction::RestoreOld,
                    OldFile::Missing => WriteAction::RemoveNew,
                    _ => WriteAction::RemoveTemporaryEtag,
                },
            ),
            (WriteAction::RenameEtag, _) => if self.old == OldFile::Kept {
                self.with(WriteAction::RemoveOld)
            } else {
                self.succeeding(now)
            },
            (WriteAction::RestoreOld, AccessView::Failed(_)) => self.with(WriteAction::RemoveOld),
            (WriteAction::RestoreOld, _) => self.with(WriteAction::RemoveTemporaryEtag),
            (WriteAction::RemoveNew, _) => self.with(WriteAction::RemoveTemporaryEtag),
            (WriteAction::RemoveOld, _) => if self.failure is None {
                self.succeeding(now)
            } else {
                self.with(WriteAction::RemoveTemporaryEtag)
            },
            (WriteAction::RemoveTemporaryEtag, _) => self.with(WriteAction::RemoveTemporary),
            (WriteAction::RemoveTemporary, _) => WriteStep::Done(
                Err(
                    StorageErrorView::Backend(
                        match self.failure {
                            Some(m) => m,
                            None => Seq::empty(),
                        },
                    ),
                ),
            ),
        }
    }
}

/// The dot at `i` begins the extension of the path: it is the last one of the
/// path's last name, and does not begin that name.
pub open spec fn begins_extension(path: Seq<char>, i: int) -> bool {
    &&& 0 < i < path.len()
    &&& path[i] == '.'
    &&& path[i - 1] != '/'
    &&& forall|j: int| i < j < path.len() ==> #[trigger] path[j] != '.' && path[j] != '/'
}

/// The path without its extension.
pub open spec fn stem(path: Seq<char>) -> Seq<char> {
    if exists|i: int| #[trigger] begins_extension(path, i) {
        path.take(choose|i: int| #[trigger] begins_extension(path, i))
    } else {
        path
    }
}

fn stem_text(path: &str) -> (text: &str)
    ensures
        text@ == stem(path@),
{
    let n: usize = path.unicode_len();
    let mut i: usize = n;
    while i > 0
        invariant
            i <= n,
            n == path@.len(),
            forall|j: int| i <= j < n ==> #[trigger] path@[j] != '.' && path@[j] != '/',
        decreases i,
    {
        i -= 1;
        let c = path.get_char(i);
        if c == '/' {
            assert(forall|k: int| !(#[trigger] begins_extension(path@, k)));
            return path;
        }
        if c == '.' {
            if i == 0 || path.get_char(i - 1) == '/' {
                assert(forall|k: int| !(#[trigger] begins_extension(path@, k)));
                return path;
            }
            assert(begins_extension(path@, i as int));
            assert(forall|k: int| #[trigger] begins_extension(path@, k) ==> k == i);
            let text = path.substring_char(0, i);
            assert(text@ =~= path@.take(i as int));
            return text;
        }
    }
    path
}

/// The name of the temporary file for `key`: it has another extension.
pub open spec fn temporary_file(key: Seq<char>, id: Seq<char>) -> Seq<char> {
    stem(key) + ".tmp-"@ + id
}

/// The name under which the old file is kept. Its extension is that of an etag,
/// so that it is not listed.
pub open spec fn old_file(temporary: Seq<char>) -> Seq<char> {
    temporary + ".old.etag"@
}

impl ObjectWrite {
    /// Begins to write `size` bytes under `key` with the given etag; `id` sets
    /// the temporary files apart.
    pub fn begin_with(key: &str, size: u64, id: &str, etag: String) -> (w: ObjectWrite)
        ensures
            w@ == (WriteView {
                key: key@,
                temporary: temporary_file(key@, id@),
                etag: etag@,
                size,
                old: OldFile::Unknown,
                failure: None,
                action: WriteAction::MakeParent,
            }),
    {
        let mut temporary = stem_text(key).to_string();
        temporary.append(".tmp-");
        temporary.append(id);
        ObjectWrite {
            key: key.to_string(),
            temporary,
            etag,
            size,
            old: OldFile::Unknown,
            failure: None,
            action: WriteAction::MakeParent,
        }
    }

    /// Begins to write `size` bytes under `key` with a new etag.
    pub fn begin(key: &str, size: u64) -> (w: ObjectWrite)
        ensures
            is_uuid_text(w@.etag),
            exists|id: Seq<char>| #[trigger]
                is_uuid_text(id) && w@ == (WriteView {
                    key: key@,
                    temporary: temporary_file(key@, id),
                    etag: w@.etag,
                    size,
                    old: OldFile::Unknown,
                    failure: None,
                    action: WriteAction::MakeParent,
                }),
    {
        let id = fresh_uuid();
        ObjectWrite::begin_with(key, size, id.as_str(), fresh_uuid())
    }

    /// The name of the temporary file for the etag.
    pub fn temporary_etag(&self) -> (name: String)
        ensures
            name@ == etag_file(self@.temporary),
    {
        etag_name(self.temporary.as_str())
    }

    /// The name under which the old file is kept.
    pub fn old_name(&self) -> (name: String)
        ensures
            name@ == old_file(self@.temporary),
    {
        let mut name = self.temporary.clone();
        name.append(".old.etag");
        name
    }

    fn with(self, action: WriteAction) -> (progress: WriteProgress)
        ensures
            progress@ == self@.with(action),
    {
        WriteProgress::Next(
            ObjectWrite {
                key: self.key,
                temporary: self.temporary,
                etag: self.etag,
                size: self.size,
                old: self.old,
                failure: self.failure,
                action,
            },
        )
    }

    fn failing(self, m: String, action: WriteAction) -> (progress: WriteProgress)
        ensures
            progress@ == self@.failing(m@, action),
    {
        WriteProgress::Next(
            ObjectWrite {
                key: self.key,
                temporary: self.temporary,
                etag: self.etag,
                size: self.size,
                old: self.old,
                failure: Some(m),
                action,
            },
        )
    }

    fn knowing(self, old: OldFile) -> (progress: WriteProgress)
        ensures
            progress@ == self@.knowing(old),
    {
        WriteProgress::Next(
            ObjectWrite {
                key: self.key,
                temporary: self.temporary,
                etag: self.etag,
                size: self.size,
                old,
                failure: self.failure,
                action: WriteAction::Rename,
            },
        )
    }

    fn succeeding(self, now: NaiveDateTime) -> (progress: WriteProgress)
        ensures
            progress@ == self@.succeeding(now),
    {
        WriteProgress::Done(
            Ok(
                ObjectMeta {
                    key: self.key,
                    size: self.size,
                    etag: self.etag,
                    last_modified: now,
                },
            ),
        )
    }

    /// Goes on after the current access came out so, at the time `now`.
    pub fn advance_at(self, outcome: Access, now: NaiveDateTime) -> (progress: WriteProgress)
        ensures
            progress@ == self@.next(outcome@, now),
    {
        match (self.action, outcome) {
            (WriteAction::MakeParent, Access::Failed(m)) => WriteProgress::Done(
                Err(StorageError::Backend(m)),
            ),
            (WriteAction::MakeParent, _) => self.with(WriteAction::WriteTemporary),
            (WriteAction::WriteTemporary, Access::Failed(m)) => self.failing(
                m,
                WriteAction::RemoveTemporary,
            ),
            (WriteAction::WriteTemporary, _) => self.with(WriteAction::WriteTemporaryEtag),
            (WriteAction::WriteTemporaryEtag, Access::Failed(m)) => self.failing(
                m,
                WriteAction::RemoveTemporaryEtag,
            ),
            (WriteAction::WriteTemporaryEtag, _) => self.with(WriteAction::KeepOld),
            (WriteAction::KeepOld, Access::Done) => self.knowing(OldFile::Kept),
            (WriteAction::KeepOld, Access::Missing) => self.knowing(OldFile::Missing),
            (WriteAction::KeepOld, Access::Failed(_)) => self.knowing(OldFile::Unkept),
            (WriteAction::Rename, Access::Failed(m)) => {
                let undoing = match self.old {
                    OldFile::Kept => WriteAction::RemoveOld,
                    _ => WriteAction::RemoveTemporaryEtag,
                };
                self.failing(m, undoing)
            },
            (WriteAction::Rename, _) => self.with(WriteAction::RenameEtag),
            (WriteAction::RenameEtag, Access::Failed(m)) => {
                let undoing = match self.old {
                    OldFile::Kept => WriteAction::RestoreOld,
                    OldFile::Missing => WriteAction::RemoveNew,
                    _ => WriteAction::RemoveTemporaryEtag,
                };
                self.failing(m, undoing)
            },
            (WriteAction::RenameEtag, _) => match self.old {
                OldFile::Kept => self.with(WriteAction::RemoveOld),
                _ => self.succeeding(now),
            },
            (WriteAction::RestoreOld, Access::Failed(_)) => self.with(WriteAction::RemoveOld),
            (WriteAction::RestoreOld, _) => self.with(WriteAction::RemoveTemporaryEtag),
            (WriteAction::RemoveNew, _) => self.with(WriteAction::RemoveTemporaryEtag),
            (WriteAction::RemoveOld, _) => match &self.failure {
                None => self.succeeding(now),
                Some(_) => self.with(WriteAction::RemoveTemporaryEtag),
            },
            (WriteAction::RemoveTemporaryEtag, _) => self.with(WriteAction::RemoveTemporary),
            (WriteAction::RemoveTemporary, _) => {
                let m = match self.failure {
                    Some(m) => m,
                    None => {
                        let none = String::new();
                        assert(none@ =~= Seq::<char>::empty());
                        none
                    },
                };
                WriteProgress::Done(Err(StorageError::Backend(m)))
            },
        }
    }

    /// Goes on after the current access, now.
    pub fn advance(self, outcome: Access) -> (progress: WriteProgress)
        ensures
            exists|now: NaiveDateTime| progress@ == #[trigger] self@.next(outcome@, now),
    {
        let now = utc_now();
        self.advance_at(outcome, now)
    }
}

/// The files under the root directory: what each holds, by its name.
pub type Files = Map<Seq<char>, Seq<u8>>;

/// What the file holds, if it is there.
pub open spec fn file_bytes(files: Files, name: Seq<char>) -> Option<Seq<u8>> {
    if files.contains_key(name) {
        Some(files[name])
    } else {
        None
    }
}

/// The etag that the files hold for `key`.
pub open spec fn etag_bytes(files: Files, key: Seq<char>) -> Option<Seq<u8>> {
    file_bytes(files, etag_file(key))
}

/// A file was written. Where that failed, anything may be left in it.
pub open spec fn file_written(
    before: Files,
    after: Files,
    name: Seq<char>,
    content: Seq<u8>,
    outcome: AccessView,
) -> bool {
    if outcome is Failed {
        after.remove(name) == before.remove(name)
    } else {
        after == before.insert(name, content)
    }
}

/// A file got a second name. Where it is not there or that failed, nothing has
/// changed.
pub open spec fn file_kept(
    before: Files,
    after: Files,
    name: Seq<char>,
    second: Seq<char>,
    outcome: AccessView,
) -> bool {
    match outcome {
        AccessView::Done => before.contains_key(name) && after == before.insert(
            second,
            before[name],
        ),
        AccessView::Missing => !before.contains_key(name) && after == before,
        AccessView::Failed(_) => after == before,
    }
}

/// A file was renamed, in place of the one of that name. Where that failed,
/// nothing has changed.
pub open spec fn file_renamed(
    before: Files,
    after: Files,
    from: Seq<char>,
    to: Seq<char>,
    outcome: AccessView,
) -> bool {
    if outcome is Failed {
        after == before
    } else {
        before.contains_key(from) && after == before.remove(from).insert(to, before[from])
    }
}

/// A file was removed, if it was there. Where that failed, nothing has changed.
pub open spec fn file_removed(
    before: Files,
    after: Files,
    name: Seq<char>,
    outcome: AccessView,
) -> bool {
    if outcome is Failed {
        after == before
    } else {
        after == before.remove(name)
    }
}

/// What an access in writing `data` does to the files.
pub open spec fn accessed(
    w: WriteView,
    data: Seq<u8>,
    outcome: AccessView,
    before: Files,
    after: Files,
) -> bool {
    let etag = etag_file(w.key);
    let temporary_etag = etag_file(w.temporary);
    let old = old_file(w.temporary);
    match w.action {
        WriteAction::MakeParent => after == before,
        WriteAction::WriteTemporary => file_written(before, after, w.temporary, data, outcome),
        WriteAction::WriteTemporaryEtag => file_written(
            before,
            after,
            temporary_etag,
            encode_utf8(w.etag),
            outcome,
        ),
        WriteAction::KeepOld => file_kept(before, after, w.key, old, outcome),
        WriteAction::Rename => file_renamed(before, after, w.temporary, w.key, outcome),
        WriteAction::RenameEtag => file_renamed(before, after, temporary_etag, etag, outcome),
        WriteAction::RestoreOld => file_renamed(before, after, old, w.key, outcome),
        WriteAction::RemoveNew => file_removed(before, after, w.key, outcome),
        WriteAction::RemoveOld => file_removed(before, after, old, outcome),
        WriteAction::RemoveTemporaryEtag => file_removed(before, after, temporary_etag, outcome),
        WriteAction::RemoveTemporary => file_removed(before, after, w.temporary, outcome),
    }
}

/// The files after `data` was stored under `key` with the etag.
pub open spec fn stored_files(
    files: Files,
    key: Seq<char>,
    data: Seq<u8>,
    etag: Seq<char>,
) -> Files {
    files.insert(etag_file(key), encode_utf8(etag)).insert(key, data)
}

/// A write of `data` from its beginning to its end: the stages that it goes
/// through, what became of the access at each, and the files before, between
/// and after.
pub open spec fn write_history(
    stages: Seq<WriteView>,
    outcomes: Seq<AccessView>,
    files: Seq<Files>,
    data: Seq<u8>,
    now: NaiveDateTime,
    result: Result<ObjectMetaView, StorageErrorView>,
) -> bool {
    &&& stages.len() > 0
    &&& outcomes.len() == stages.len()
    &&& files.len() == stages.len() + 1
    &&& stages[0].size == data.len()
    &&& forall|i: int| #![trigger outcomes[i]]
        0 <= i < stages.len() ==> accessed(stages[i], data, outcomes[i], files[i], files[i + 1])
    &&& forall|i: int| #![trigger outcomes[i]]
        0 <= i < stages.len() - 1 ==> stages[i].next(outcomes[i], now) == WriteStep::Next(
            stages[i + 1],
        )
    &&& stages.last().next(outcomes.last(), now) == WriteStep::Done(result)
}

/// The write is at its beginning; the names that it deals with are all
/// different, and its own files are not there yet.
pub open spec fn is_new_write(w: WriteView, files: Files) -> bool {
    &&& w.action == WriteAction::MakeParent
    &&& w.old == OldFile::Unknown
    &&& w.failure is None
    &&& names_differ(w.key, w.temporary)
    &&& !files.contains_key(w.temporary)
    &&& !files.contains_key(etag_file(w.temporary))
    &&& !files.contains_key(old_file(w.temporary))
}

/// The names of the files that a write deals with are all different.
pub open spec fn names_differ(key: Seq<char>, temporary: Seq<char>) -> bool {
    &&& temporary != key
    &&& temporary != etag_file(key)
    &&& etag_file(temporary) != key
    &&& old_file(temporary) != key
    &&& old_file(temporary) != etag_file(key)
}

/// A new id makes the names different: they are, unless the key holds the id.
pub proof fn law_new_names_differ(key: Seq<char>, id: Seq<char>)
    requires
        is_uuid_text(id),
        forall|i: int| 0 <= i <= key.len() - id.len() ==> #[trigger] key.subrange(
            i,
            i + id.len(),
        ) != id,
    ensures
        names_differ(key, temporary_file(key, id)),
{
    reveal_strlit(".tmp-");
    reveal_strlit(".etag");
    reveal_strlit(".old.etag");
    let t = temporary_file(key, id);
    let n: int = stem(key).len() + 5int;
    let m: int = n + id.len();
    assert(t.subrange(n, m) =~= id);
    assert(etag_file(t).subrange(n, m) =~= id);
    assert(old_file(t).subrange(n, m) =~= id);
    if t == key || etag_file(t) == key || old_file(t) == key {
        assert(key.subrange(n, m) == id);
    }
    if t == etag_file(key) {
        assert(t.last() == id.last());
        assert(etag_file(key).last() == 'g');
    }
    if old_file(t) == etag_file(key) {
        assert(old_file(t).len() == m + 9 && etag_file(key).len() == key.len() + 5);
        assert(key.subrange(n, m) =~= etag_file(key).subrange(n, m));
    }
}

/// None of the first `n` accesses that serve to undo failed.
pub open spec fn all_undone(stages: Seq<WriteView>, outcomes: Seq<AccessView>, n: int) -> bool {
    forall|i: int| #![trigger outcomes[i]]
        0 <= i < n && serves_undoing(stages[i].action) ==> !(outcomes[i] is Failed)
}

/// The files are the same but for the object's file and the write's own.
pub open spec fn same_but(a: Files, b: Files, w: WriteView) -> bool {
    a.remove(w.key).remove(etag_file(w.temporary)).remove(w.temporary).remove(
        old_file(w.temporary),
    ) == b.remove(w.key).remove(etag_file(w.temporary)).remove(w.temporary).remove(
        old_file(w.temporary),
    )
}

/// Under the key stands the old data or, only where it was `moved` there, the
/// new.
pub open spec fn holds_old_or_new(
    files: Files,
    first: Files,
    key: Seq<char>,
    data: Seq<u8>,
    moved: bool,
) -> bool {
    file_bytes(files, key) == file_bytes(first, key) || moved && file_bytes(files, key) == Some(
        data,
    )
}

/// The data has taken its place by one of the first `n` stages.
pub open spec fn was_moved(stages: Seq<WriteView>, n: int) -> bool {
    exists|i: int| #![trigger stages[i]]
        0 <= i < n && i < stages.len() && stages[i].action == WriteAction::RenameEtag
}

/// The files before the data takes its place.
spec fn staged(w: WriteView, data: Seq<u8>, first: Files) -> Files {
    let files = first.insert(w.temporary, data).insert(
        etag_file(w.temporary),
        encode_utf8(w.etag),
    );
    if w.old == OldFile::Kept {
        files.insert(old_file(w.temporary), first[w.key])
    } else {
        files
    }
}

/// What the write knows of the old file is so.
spec fn knows_old(w: WriteView, clean: bool, first: Files) -> bool {
    match w.old {
        OldFile::Unknown => false,
        OldFile::Missing => !first.contains_key(w.key),
        OldFile::Kept => first.contains_key(w.key),
        OldFile::Unkept => !clean,
    }
}

/// How the files stand at a stage of a write; `moved` says whether the data has
/// taken its place meanwhile.
spec fn stage_files(
    w: WriteView,
    data: Seq<u8>,
    clean: bool,
    moved: bool,
    first: Files,
    files: Files,
) -> bool {
    let etag = etag_file(w.key);
    let temporary_etag = etag_file(w.temporary);
    let old = old_file(w.temporary);
    let new = encode_utf8(w.etag);
    &&& w.failure is None && w.action == WriteAction::RemoveOld || {
        &&& same_but(files, first, w)
        &&& holds_old_or_new(files, first, w.key, data, moved)
    }
    &&& w.action == WriteAction::RenameEtag ==> moved
    &&& match w.action {
        WriteAction::MakeParent => files == first && w.failure is None,
        WriteAction::WriteTemporary => files == first && w.failure is None,
        WriteAction::WriteTemporaryEtag => files == first.insert(w.temporary, data)
            && w.failure is None,
        WriteAction::KeepOld => files == first.insert(w.temporary, data).insert(
            temporary_etag,
            new,
        ) && w.failure is None,
        WriteAction::Rename => files == staged(w, data, first) && w.failure is None && knows_old(
            w,
            clean,
            first,
        ),
        WriteAction::RenameEtag => files == staged(w, data, first).remove(w.temporary).insert(
            w.key,
            data,
        ) && w.failure is None && knows_old(w, clean, first),
        WriteAction::RestoreOld => files == first.insert(temporary_etag, new).insert(
            old,
            first[w.key],
        ).insert(w.key, data) && w.failure is Some && first.contains_key(w.key),
        WriteAction::RemoveNew => files == first.insert(temporary_etag, new).insert(w.key, data)
            && w.failure is Some && !first.contains_key(w.key),
        WriteAction::RemoveOld => if w.failure is None {
            files.remove(old) == stored_files(first, w.key, data, w.etag)
        } else {
            clean ==> files.remove(old).remove(temporary_etag).remove(w.temporary) == first
        },
        WriteAction::RemoveTemporaryEtag => w.failure is Some && (clean ==> files.remove(
            temporary_etag,
        ).remove(w.temporary) == first),
        WriteAction::RemoveTemporary => w.failure is Some && (clean ==> files.remove(w.temporary)
            == first),
    }
}

/// A write that failed leaves the other files alone.
proof fn lemma_write_failed(before: Files, after: Files, name: Seq<char>, other: Seq<char>)
    requires
        after.remove(name) == before.remove(name),
        other != name,
    ensures
        file_bytes(after, other) == file_bytes(before, other),
{
    assert(after.contains_key(other) == after.remove(name).contains_key(other));
    assert(before.contains_key(other) == before.remove(name).contains_key(other));
    assert(after.contains_key(other) ==> after[other] == after.remove(name)[other]);
    assert(before.contains_key(other) ==> before[other] == before.remove(name)[other]);
}

proof fn lemma_suffixes(key: Seq<char>, temporary: Seq<char>)
    requires
        names_differ(key, temporary),
    ensures
        etag_file(temporary) != temporary,
        etag_file(temporary) != etag_file(key),
        old_file(temporary) != temporary,
        old_file(temporary) != etag_file(temporary),
        etag_file(key) != key,
{
    reveal_strlit(".etag");
    reveal_strlit(".old.etag");
    lemma_etag_files(key, temporary);
    assert(etag_file(temporary).len() == temporary.len() + 5);
    assert(old_file(temporary).len() == temporary.len() + 9);
}

proof fn lemma_write_step(
    w: WriteView,
    data: Seq<u8>,
    clean: bool,
    moved: bool,
    first: Files,
    before: Files,
    outcome: AccessView,
    after: Files,
    now: NaiveDateTime,
)
    requires
        names_differ(w.key, w.temporary),
        !first.contains_key(w.temporary),
        !first.contains_key(etag_file(w.temporary)),
        !first.contains_key(old_file(w.temporary)),
        stage_files(w, data, clean, moved, first, before),
        accessed(w, data, outcome, before, after),
        clean && serves_undoing(w.action) ==> !(outcome is Failed),
    ensures
        match w.next(outcome, now) {
            WriteStep::Next(next) => {
                &&& next.key == w.key
                &&& next.temporary == w.temporary
                &&& next.etag == w.etag
                &&& next.size == w.size
                &&& stage_files(
                    next,
                    data,
                    clean,
                    moved || next.action == WriteAction::RenameEtag,
                    first,
                    after,
                )
            },
            WriteStep::Done(Ok(meta)) => {
                &&& after.remove(old_file(w.temporary)) == stored_files(
                    first,
                    w.key,
                    data,
                    w.etag,
                )
                &&& clean ==> after == stored_files(first, w.key, data, w.etag)
                &&& meta == (ObjectMetaView {
                    key: w.key,
                    size: w.size,
                    etag: w.etag,
                    last_modified: now,
                })
            },
            WriteStep::Done(Err(_)) => {
                &&& same_but(after, first, w)
                &&& holds_old_or_new(after, first, w.key, data, moved)
                &&& clean ==> after == first
            },
        },
{
    lemma_suffixes(w.key, w.temporary);
    let k = w.key;
    let e = etag_file(w.key);
    let te = etag_file(w.temporary);
    let t = w.temporary;
    let o = old_file(w.temporary);
    let stored = stored_files(first, k, data, w.etag);
    let rest_after = after.remove(k).remove(te).remove(t).remove(o);
    let rest_before = before.remove(k).remove(te).remove(t).remove(o);
    assert(first.remove(t) =~= first);
    assert(first.remove(te) =~= first);
    assert(first.remove(o) =~= first);
    match w.action {
        WriteAction::MakeParent => {},
        WriteAction::WriteTemporary => {
            if outcome is Failed {
                lemma_write_failed(before, after, t, k);
                assert(rest_after =~= after.remove(t).remove(k).remove(te).remove(o));
                assert(rest_before =~= before.remove(t).remove(k).remove(te).remove(o));
            } else {
                assert(rest_after =~= rest_before);
            }
        },
        WriteAction::WriteTemporaryEtag => {
            if outcome is Failed {
                lemma_write_failed(before, after, te, k);
                assert(rest_after =~= after.remove(te).remove(k).remove(t).remove(o));
                assert(rest_before =~= before.remove(te).remove(k).remove(t).remove(o));
                assert(before.remove(te).remove(t) =~= first);
            } else {
                assert(rest_after =~= rest_before);
            }
        },
        WriteAction::KeepOld => {
            assert(rest_after =~= rest_before);
        },
        WriteAction::Rename => {
            if outcome is Failed {
                assert(before.remove(o).remove(te).remove(t) =~= first);
                if w.old != OldFile::Kept {
                    assert(before.remove(te).remove(t) =~= first);
                }
            } else {
                assert(rest_after =~= rest_before);
            }
        },
        WriteAction::RenameEtag => {
            if outcome is Failed {
                if w.old == OldFile::Kept {
                    assert(after =~= first.insert(te, encode_utf8(w.etag)).insert(
                        o,
                        first[k],
                    ).insert(k, data));
                } else {
                    assert(after =~= first.insert(te, encode_utf8(w.etag)).insert(k, data));
                }
            } else {
                assert(after.remove(o) =~= stored);
                if w.old != OldFile::Kept {
                    assert(after =~= stored);
                }
            }
        },
        WriteAction::RestoreOld => {
            if !(outcome is Failed) {
                assert(after.remove(te).remove(t) =~= first);
                assert(rest_after =~= rest_before);
            }
        },
        WriteAction::RemoveNew => {
            if !(outcome is Failed) {
                assert(after.remove(te).remove(t) =~= first);
                assert(rest_after =~= rest_before);
            }
        },
        WriteAction::RemoveOld => {
            assert(stored.remove(o) =~= stored);
            if !(outcome is Failed) {
                assert(rest_after =~= rest_before);
            }
        },
        WriteAction::RemoveTemporaryEtag => {
            if !(outcome is Failed) {
                assert(rest_after =~= rest_before);
            }
        },
        WriteAction::RemoveTemporary => {
            if !(outcome is Failed) {
                assert(rest_after =~= rest_before);
            }
        },
    }
}

proof fn lemma_was_moved(stages: Seq<WriteView>, n: int)
    requires
        0 <= n < stages.len(),
    ensures
        was_moved(stages, n + 1) == (was_moved(stages, n) || stages[n].action
            == WriteAction::RenameEtag),
{
    if was_moved(stages, n) {
        let i = choose|i: int| #![trigger stages[i]]
            0 <= i < n && i < stages.len() && stages[i].action == WriteAction::RenameEtag;
        assert(stages[i].action == WriteAction::RenameEtag);
    }
}

proof fn lemma_write_stages(
    stages: Seq<WriteView>,
    outcomes: Seq<AccessView>,
    files: Seq<Files>,
    data: Seq<u8>,
    now: NaiveDateTime,
    result: Result<ObjectMetaView, StorageErrorView>,
    n: int,
)
    requires
        write_history(stages, outcomes, files, data, now, result),
        is_new_write(stages[0], files[0]),
        0 <= n < stages.len(),
    ensures
        stages[n].key == stages[0].key,
        stages[n].temporary == stages[0].temporary,
        stages[n].etag == stages[0].etag,
        stages[n].size == stages[0].size,
        stage_files(
            stages[n],
            data,
            all_undone(stages, outcomes, n),
            was_moved(stages, n + 1),
            files[0],
            files[n],
        ),
    decreases n,
{
    if n > 0 {
        lemma_write_stages(stages, outcomes, files, data, now, result, n - 1);
        let w = stages[n - 1];
        let outcome = outcomes[n - 1];
        let clean = all_undone(stages, outcomes, n);
        assert(clean ==> all_undone(stages, outcomes, n - 1));
        let moved = was_moved(stages, n);
        assert(accessed(w, data, outcome, files[n - 1], files[n]));
        lemma_write_step(w, data, clean, moved, files[0], files[n - 1], outcome, files[n], now);
        assert(w.next(outcome, now) == WriteStep::Next(stages[n]));
        lemma_was_moved(stages, n);
    }
}

proof fn lemma_write_end(
    stages: Seq<WriteView>,
    outcomes: Seq<AccessView>,
    files: Seq<Files>,
    data: Seq<u8>,
    now: NaiveDateTime,
    result: Result<ObjectMetaView, StorageErrorView>,
)
    requires
        write_history(stages, outcomes, files, data, now, result),
        is_new_write(stages[0], files[0]),
    ensures
        ({
            let w = stages[0];
            let clean = all_undone(stages, outcomes, stages.len() as int);
            match result {
                Ok(meta) => {
                    &&& files.last().remove(old_file(w.temporary)) == stored_files(
                        files[0],
                        w.key,
                        data,
                        w.etag,
                    )
                    &&& clean ==> files.last() == stored_files(files[0], w.key, data, w.etag)
                    &&& meta == (ObjectMetaView {
                        key: w.key,
                        size: w.size,
                        etag: w.etag,
                        last_modified: now,
                    })
                },
                Err(_) => {
                    &&& same_but(files.last(), files[0], w)
                    &&& holds_old_or_new(
                        files.last(),
                        files[0],
                        w.key,
                        data,
                        was_moved(stages, stages.len() as int),
                    )
                    &&& clean ==> files.last() == files[0]
                },
            }
        }),
{
    let n = stages.len() - 1;
    lemma_write_stages(stages, outcomes, files, data, now, result, n);
    let w = stages[n];
    let outcome = outcomes[n];
    let clean = all_undone(stages, outcomes, n + 1);
    assert(clean ==> all_undone(stages, outcomes, n));
    let moved = was_moved(stages, n + 1);
    assert(accessed(w, data, outcome, files[n], files[n + 1]));
    lemma_write_step(w, data, clean, moved, files[0], files[n], outcome, files[n + 1], now);
}

/// A write that succeeds stores its data and its etag, returns that etag and the
/// size of the data, and leaves every other file as it was; of the write itself
/// at most the copy of the old file is left, where it could not be removed.
pub proof fn law_write_stores_data_and_etag(
    stages: Seq<WriteView>,
    outcomes: Seq<AccessView>,
    files: Seq<Files>,
    data: Seq<u8>,
    now: NaiveDateTime,
    meta: ObjectMetaView,
)
    requires
        write_history(stages, outcomes, files, data, now, Ok(meta)),
        is_new_write(stages[0], files[0]),
    ensures
        meta.key == stages[0].key,
        meta.size == data.len(),
        files.last().remove(old_file(stages[0].temporary)) == stored_files(
            files[0],
            meta.key,
            data,
            meta.etag,
        ),
        all_undone(stages, outcomes, stages.len() as int) ==> files.last() == stored_files(
            files[0],
            meta.key,
            data,
            meta.etag,
        ),
        file_bytes(files.last(), meta.key) == Some(data),
        etag_bytes(files.last(), meta.key) == Some(encode_utf8(meta.etag)),
{
    lemma_write_end(stages, outcomes, files, data, now, Ok(meta));
    let w = stages[0];
    lemma_suffixes(w.key, w.temporary);
    let o = old_file(w.temporary);
    let stored = stored_files(files[0], w.key, data, w.etag);
    assert(stored.remove(o) =~= stored);
    lemma_write_failed(stored, files.last(), o, w.key);
    lemma_write_failed(stored, files.last(), o, etag_file(w.key));
}

/// A write that fails leaves the old object: where what it had done could be
/// undone, all files are as they were. Where even that failed, the etag and all
/// other objects are as they were, and under the key stands the old data or,
/// only where it had taken its place already, the new.
pub proof fn law_failed_write_leaves_the_old_object(
    stages: Seq<WriteView>,
    outcomes: Seq<AccessView>,
    files: Seq<Files>,
    data: Seq<u8>,
    now: NaiveDateTime,
    e: StorageErrorView,
)
    requires
        write_history(stages, outcomes, files, data, now, Err(e)),
        is_new_write(stages[0], files[0]),
    ensures
        all_undone(stages, outcomes, stages.len() as int) ==> files.last() == files[0],
        same_but(files.last(), files[0], stages[0]),
        etag_bytes(files.last(), stages[0].key) == etag_bytes(files[0], stages[0].key),
        holds_old_or_new(
            files.last(),
            files[0],
            stages[0].key,
            data,
            was_moved(stages, stages.len() as int),
        ),
{
    lemma_write_end(stages, outcomes, files, data, now, Err(e));
    let w = stages[0];
    lemma_suffixes(w.key, w.temporary);
    let x = etag_file(w.key);
    let a = files.last().remove(w.key).remove(etag_file(w.temporary)).remove(w.temporary).remove(
        old_file(w.temporary),
    );
    let b = files[0].remove(w.key).remove(etag_file(w.temporary)).remove(w.temporary).remove(
        old_file(w.temporary),
    );
    assert(a.contains_key(x) == files.last().contains_key(x));
    assert(b.contains_key(x) == files[0].contains_key(x));
    assert(files.last().contains_key(x) ==> a[x] == files.last()[x]);
    assert(files[0].contains_key(x) ==> b[x] == files[0][x]);
}

/// A key that is not the name of a file for an etag.
pub open spec fn is_plain(key: Seq<char>) -> bool {
    !finishes_with(key, ".etag"@)
}

/// Storing one object leaves the others, data and etag both.
pub proof fn law_other_objects_stay(
    files: Files,
    key: Seq<char>,
    data: Seq<u8>,
    etag: Seq<char>,
    other: Seq<char>,
)
    requires
        is_plain(key),
        is_plain(other),
        other != key,
    ensures
        stored_files(files, key, data, etag).contains_key(other) == files.contains_key(other),
        files.contains_key(other) ==> stored_files(files, key, data, etag)[other] == files[other],
        etag_bytes(stored_files(files, key, data, etag), other) == etag_bytes(files, other),
{
    lemma_etag_files(key, other);
}

proof fn lemma_etag_files(a: Seq<char>, b: Seq<char>)
    ensures
        finishes_with(etag_file(a), ".etag"@),
        finishes_with(etag_file(b), ".etag"@),
        etag_file(a) == etag_file(b) ==> a == b,
{
    reveal_strlit(".etag");
    assert(etag_file(a).skip(a.len() as int) =~= ".etag"@);
    assert(etag_file(b).skip(b.len() as int) =~= ".etag"@);
    if etag_file(a) == etag_file(b) {
        assert(a.len() == b.len());
        assert(etag_file(a).take(a.len() as int) =~= a);
        assert(etag_file(b).take(b.len() as int) =~= b);
    }
}

/// What reading the etag of `key` from the files gives, where reading does not
/// fail for another reason than that there is none.
pub open spec fn reads_etag(
    files: Files,
    key: Seq<char>,
    current: Result<String, ReadFailure>,
) -> bool {
    match current {
        Ok(etag) => etag_bytes(files, key) == Some(encode_utf8(etag@)),
        Err(f) => f.not_found && etag_bytes(files, key) is None,
    }
}

/// Of two writers that read the same etag at most one gets through: after the
/// first has stored its object under a new etag, what is read back is its data
/// and its etag, and a write on the condition of the old etag is refused.
pub proof fn law_stale_etag_is_refused(
    files: Files,
    key: Seq<char>,
    read: Seq<char>,
    data: Seq<u8>,
    etag: Seq<char>,
    current: Result<String, ReadFailure>,
)
    requires
        etag != read,
        reads_etag(stored_files(files, key, data, etag), key, current),
    ensures
        current matches Ok(c) && c@ == etag,
        is_match(current, etag),
        !is_match(current, read),
{
    let after = stored_files(files, key, data, etag);
    lemma_etag_files(key, key);
    reveal_strlit(".etag");
    assert(etag_file(key).len() != key.len());
    if let Ok(c) = current {
        lemma_utf8_injective(c@, etag);
    }
}

/// After a write has succeeded, another that read the etag before it is
/// refused, and nobody else but the holder of the new etag gets through.
pub proof fn law_one_conditional_write_gets_through(
    stages: Seq<WriteView>,
    outcomes: Seq<AccessView>,
    files: Seq<Files>,
    data: Seq<u8>,
    now: NaiveDateTime,
    meta: ObjectMetaView,
    current: Result<String, ReadFailure>,
)
    requires
        write_history(stages, outcomes, files, data, now, Ok(meta)),
        is_new_write(stages[0], files[0]),
        reads_etag(files.last(), meta.key, current),
    ensures
        forall|if_match: Seq<char>| #[trigger]
            is_match(current, if_match) <==> if_match == meta.etag,
{
    law_write_stores_data_and_etag(stages, outcomes, files, data, now, meta);
    if let Ok(c) = current {
        lemma_utf8_injective(c@, meta.etag);
    }
}

/// A conditional write of an object that has no etag is refused.
pub proof fn law_conditional_write_needs_an_object(
    files: Files,
    key: Seq<char>,
    if_match: Seq<char>,
    current: Result<String, ReadFailure>,
)
    requires
        etag_bytes(files, key) is None,
        reads_etag(files, key, current),
    ensures
        !is_match(current, if_match),
{
}

/// The etag of an object is in the file with its name and `.etag` behind it.
pub proof fn law_etag_names(key: &str, name: String)
    requires
        call_ensures(etag_name, (key,), name),
    ensures
        name@ == key@ + ".etag"@,
{
}

/// A file that does not exist is an object that is not found; any other failure to
/// read it is one of the backend, with its message.
pub proof fn law_read_errors(key: &str, failure: ReadFailure, e: StorageError)
    requires
        call_ensures(read_error, (key, failure), e),
    ensures
        failure.not_found ==> (e matches StorageError::NotFound(k) && k@ == key@),
        !failure.not_found ==> (e matches StorageError::Backend(m) && m@ == failure.message@),
{
}

/// A write on the condition of an etag goes on exactly where that etag was read;
/// where another was read, it is refused with both, and where none could be read,
/// with the error of reading.
pub proof fn law_checked_etags(
    key: &str,
    current: Result<String, ReadFailure>,
    if_match: &str,
    result: StorageResult<()>,
)
    requires
        call_ensures(check_match, (key, current, if_match), result),
    ensures
        result is Ok <==> (current matches Ok(etag) && etag@ == if_match@),
        match current {
            Ok(etag) => etag@ != if_match@ ==> (result matches Err(StorageError::EtagMismatch {
                key: k,
                expected,
                got,
            }) && k@ == key@ && expected@ == if_match@ && got@ == etag@),
            Err(f) => if f.not_found {
                result matches Err(StorageError::NotFound(k)) && k@ == key@
            } else {
                result matches Err(StorageError::Backend(m)) && m@ == f.message@
            },
        },
{
}

/// A write on the condition of absence goes on exactly where nothing is there.
pub proof fn law_checked_absence(key: &str, taken: bool, result: StorageResult<()>)
    requires
        call_ensures(check_absent, (key, taken), result),
    ensures
        result is Ok <==> !taken,
        result matches Err(e) ==> (e matches StorageError::EtagMismatch { key: k, expected, got }
            && k@ == key@ && expected@ == "(absent)"@ && got@ == "(present)"@),
{
}

/// Behind the place `i` there is another dot or a slash.
pub open spec fn goes_on_behind(path: Seq<char>, i: int) -> bool {
    exists|j: int| i < j < path.len() && (#[trigger] path[j] == '.' || path[j] == '/')
}

/// The temporary file has the name of the object's, with an extension of its own:
/// it takes the place of the extension that is there, if there is one.
pub proof fn law_temporary_names(
    key: &str,
    size: u64,
    id: &str,
    etag: String,
    w: ObjectWrite,
    dot: int,
)
    requires
        call_ensures(ObjectWrite::begin_with, (key, size, id, etag), w),
    ensures
        w.key@ == key@,
        w.size == size,
        w.etag@ == etag@,
        w.action == WriteAction::MakeParent,
        w.failure is None,
        w.old == OldFile::Unknown,
        0 < dot < key@.len() && key@[dot] == '.' && key@[dot - 1] != '/' && (forall|j: int|
            dot < j < key@.len() ==> #[trigger] key@[j] != '.' && key@[j] != '/')
            ==> w.temporary@ == key@.take(dot) + ".tmp-"@ + id@,
        (forall|i: int|
            0 < i < key@.len() && key@[i] == '.' && key@[i - 1] != '/' ==> #[trigger] goes_on_behind(
                key@,
                i,
            ))
            ==> w.temporary@ == key@ + ".tmp-"@ + id@,
{
    let k = key@;
    if 0 < dot < k.len() && k[dot] == '.' && k[dot - 1] != '/' && (forall|j: int|
        dot < j < k.len() ==> #[trigger] k[j] != '.' && k[j] != '/') {
        assert(begins_extension(k, dot));
        let i = choose|i: int| #[trigger] begins_extension(k, i);
        assert(begins_extension(k, i));
        if i < dot {
            assert(k[dot] != '.');
        } else if dot < i {
            assert(k[i] != '.');
        }
    }
    if forall|i: int|
        0 < i < k.len() && k[i] == '.' && k[i - 1] != '/' ==> #[trigger] goes_on_behind(k, i) {
        assert forall|i: int| !(#[trigger] begins_extension(k, i)) by {
            if begins_extension(k, i) {
                assert(goes_on_behind(k, i));
                let j = choose|j: int|
                    i < j < k.len() && (#[trigger] k[j] == '.' || k[j] == '/');
                assert(k[j] != '.' && k[j] != '/');
            }
        }
    }
}

/// The other files of a write are named after its temporary one.
pub proof fn law_names_of_a_write(w: &ObjectWrite, etag: String, old: String)
    requires
        call_ensures(ObjectWrite::temporary_etag, (w,), etag),
        call_ensures(ObjectWrite::old_name, (w,), old),
    ensures
        etag@ == w.temporary@ + ".etag"@,
        old@ == w.temporary@ + ".old.etag"@,
{
}

/// The access is one that the write is about, not one that serves to undo it.
pub open spec fn is_about_the_write(action: WriteAction) -> bool {
    ||| action == WriteAction::MakeParent
    ||| action == WriteAction::WriteTemporary
    ||| action == WriteAction::WriteTemporaryEtag
    ||| action == WriteAction::Rename
    ||| action == WriteAction::RenameEtag
}

/// Both failures are the same.
pub open spec fn same_failure(a: Option<String>, b: Option<String>) -> bool {
    match (a, b) {
        (None, None) => true,
        (Some(m), Some(n)) => m@ == n@,
        _ => false,
    }
}

/// A step of a write keeps what it is about, and goes in one direction: the data
/// is written, then the etag beside it, then the data takes its place and then the
/// etag does; the first failure of these is what the write fails with.
pub proof fn law_write_steps(w: ObjectWrite, outcome: Access, now: NaiveDateTime, p: WriteProgress)
    requires
        call_ensures(ObjectWrite::advance_at, (w, outcome, now), p),
    ensures
        p matches WriteProgress::Next(n) ==> n.key@ == w.key@ && n.temporary@ == w.temporary@
            && n.etag@ == w.etag@ && n.size == w.size,
        is_about_the_write(w.action) && !(outcome is Failed) ==> match w.action {
            WriteAction::MakeParent => p matches WriteProgress::Next(n) && n.action
                == WriteAction::WriteTemporary && same_failure(n.failure, w.failure),
            WriteAction::WriteTemporary => p matches WriteProgress::Next(n) && n.action
                == WriteAction::WriteTemporaryEtag && same_failure(n.failure, w.failure),
            WriteAction::WriteTemporaryEtag => p matches WriteProgress::Next(n) && n.action
                == WriteAction::KeepOld && same_failure(n.failure, w.failure),
            WriteAction::Rename => p matches WriteProgress::Next(n) && n.action
                == WriteAction::RenameEtag && same_failure(n.failure, w.failure),
            _ => match p {
                WriteProgress::Next(n) => n.action == WriteAction::RemoveOld && same_failure(n.failure, w.failure) && w.old == OldFile::Kept,
                WriteProgress::Done(result) => w.old != OldFile::Kept && (result matches Ok(m)
                    && m.key@ == w.key@ && m.size == w.size && m.etag@ == w.etag@
                    && m.last_modified == now),
            },
        },
        is_about_the_write(w.action) ==> (outcome matches Access::Failed(m) ==> match p {
            WriteProgress::Next(n) => !is_about_the_write(n.action) && (n.failure matches Some(f)
                && f@ == m@),
            WriteProgress::Done(result) => w.action == WriteAction::MakeParent && (
            result matches Err(StorageError::Backend(f)) && f@ == m@),
        }),
        w.action == WriteAction::KeepOld ==> (p matches WriteProgress::Next(n) && n.action
            == WriteAction::Rename && same_failure(n.failure, w.failure) && n.old == match outcome {
            Access::Done => OldFile::Kept,
            Access::Missing => OldFile::Missing,
            Access::Failed(_) => OldFile::Unkept,
        }),
        !is_about_the_write(w.action) && w.action != WriteAction::KeepOld ==> match p {
            WriteProgress::Next(n) => !is_about_the_write(n.action) && n.action
                != WriteAction::KeepOld && same_failure(n.failure, w.failure),
            WriteProgress::Done(Ok(m)) => w.action == WriteAction::RemoveOld && w.failure is None
                && m.key@ == w.key@ && m.size == w.size && m.etag@ == w.etag@ && m.last_modified
                == now,
            WriteProgress::Done(Err(e)) => w.action == WriteAction::RemoveTemporary && (
            w.failure matches Some(f) ==> (e matches StorageError::Backend(m) && m@ == f@)),
        },
{
}

/// Where the etag cannot take its place, the old file is put back, or the new one
/// removed where there was none; where the data cannot, neither is touched.
pub proof fn law_failures_are_undone(w: ObjectWrite, m: String, now: NaiveDateTime, p: WriteProgress)
    requires
        call_ensures(ObjectWrite::advance_at, (w, Access::Failed(m), now), p),
    ensures
        w.action == WriteAction::RenameEtag && w.old == OldFile::Kept ==> (
        p matches WriteProgress::Next(n) && n.action == WriteAction::RestoreOld),
        w.action == WriteAction::RenameEtag && w.old == OldFile::Missing ==> (
        p matches WriteProgress::Next(n) && n.action == WriteAction::RemoveNew),
        w.action == WriteAction::Rename ==> (p matches WriteProgress::Next(n) && n.action
            != WriteAction::RestoreOld && n.action != WriteAction::RemoveNew),
        w.action == WriteAction::WriteTemporary ==> (p matches WriteProgress::Next(n) && n.action
            == WriteAction::RemoveTemporary),
        w.action == WriteAction::WriteTemporaryEtag ==> (p matches WriteProgress::Next(n)
            && n.action == WriteAction::RemoveTemporaryEtag),
{
}

proof fn lemma_failure_so_far(
    stages: Seq<WriteView>,
    outcomes: Seq<AccessView>,
    files: Seq<Files>,
    data: Seq<u8>,
    now: NaiveDateTime,
    result: Result<ObjectMetaView, StorageErrorView>,
    n: int,
)
    requires
        write_history(stages, outcomes, files, data, now, result),
        is_new_write(stages[0], files[0]),
        0 <= n < stages.len(),
    ensures
        stages[n].failure is None ==> forall|i: int| #![trigger outcomes[i]]
            0 <= i < n && is_about_the_write(stages[i].action) ==> !(outcomes[i] is Failed),
        stages[n].failure matches Some(m) ==> exists|i: int| #![trigger outcomes[i]]
            0 <= i < n && is_about_the_write(stages[i].action) && outcomes[i]
                == AccessView::Failed(m),
        stages[n].failure is Some ==> !is_about_the_write(stages[n].action) && stages[n].action
            != WriteAction::KeepOld,
        stages[n].failure is None ==> stages[n].action != WriteAction::RemoveTemporary,
    decreases n,
{
    lemma_write_stages(stages, outcomes, files, data, now, result, n);
    if n > 0 {
        lemma_failure_so_far(stages, outcomes, files, data, now, result, n - 1);
        let w = stages[n - 1];
        let outcome = outcomes[n - 1];
        assert(w.next(outcome, now) == WriteStep::Next(stages[n]));
        if w.failure is Some {
            let m = w.failure->0;
            let i = choose|i: int| #![trigger outcomes[i]]
                0 <= i < n - 1 && is_about_the_write(stages[i].action) && outcomes[i]
                    == AccessView::Failed(m);
            let found = outcomes[i];
        }
    }
}

/// A write succeeds exactly where none of the accesses that it is about fails, and
/// it fails with the message of the one that did.
pub proof fn law_write_fails_with_its_failure(
    stages: Seq<WriteView>,
    outcomes: Seq<AccessView>,
    files: Seq<Files>,
    data: Seq<u8>,
    now: NaiveDateTime,
    result: Result<ObjectMetaView, StorageErrorView>,
)
    requires
        write_history(stages, outcomes, files, data, now, result),
        is_new_write(stages[0], files[0]),
    ensures
        result is Ok <==> forall|i: int| #![trigger outcomes[i]]
            0 <= i < stages.len() && is_about_the_write(stages[i].action) ==> !(
            outcomes[i] is Failed),
        result matches Err(e) ==> (e matches StorageErrorView::Backend(m) && exists|i: int|
            #![trigger outcomes[i]]
            0 <= i < stages.len() && is_about_the_write(stages[i].action) && outcomes[i]
                == AccessView::Failed(m)),
        result matches Ok(meta) ==> meta.last_modified == now,
{
    let n = stages.len() - 1;
    lemma_failure_so_far(stages, outcomes, files, data, now, result, n);
    let w = stages[n];
    let outcome = outcomes[n];
    assert(w.next(outcome, now) == WriteStep::Done(result));
    if w.failure is Some {
        let m = w.failure->0;
        let i = choose|i: int| #![trigger outcomes[i]]
            0 <= i < n && is_about_the_write(stages[i].action) && outcomes[i]
                == AccessView::Failed(m);
        let found = outcomes[i];
    }
}

/// A new write is one of the given object, at its beginning, under an etag and a
/// temporary name of its own.
pub proof fn law_new_writes(key: &str, size: u64, w: ObjectWrite)
    requires
        call_ensures(ObjectWrite::begin, (key, size), w),
    ensures
        w.key@ == key@,
        w.size == size,
        w.action == WriteAction::MakeParent,
        w.failure is None,
        w.old == OldFile::Unknown,
        w.etag@.len() == 36,
        w.temporary@.len() >= 41,
        w.temporary@.subrange(w.temporary@.len() - 41, w.temporary@.len() - 36) == ".tmp-"@,
{
    reveal_strlit(".tmp-");
    let id = choose|id: Seq<char>| #[trigger]
        is_uuid_text(id) && w@.temporary == temporary_file(key@, id);
    let n = w.temporary@.len() as int;
    assert(w.temporary@ == stem(key@) + ".tmp-"@ + id);
    assert(w.temporary@.subrange(n - 41, n - 36) =~= ".tmp-"@);
}

} // verus!
