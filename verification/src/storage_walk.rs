//! The decisions of listing a directory of objects: where to begin, which
//! directories to read, which files are objects, and in which order they are
//! returned.

use crate::outside::utc_now;
use crate::sorting::{
    ascending, distinct_keys, law_sorted_items, lemma_sorted_contains, lemma_sorted_distinct,
    sort_by_text, stably_sorted, Keyed,
};
use crate::storage::{
    ObjectMeta, ObjectMetaView, StorageError, StorageErrorView, StorageResult,
};
use crate::storage_local::{
    etag_bytes, etag_file, is_plain, stored_files, Files, ReadFailure,
};
use crate::text::{
    begins_with, comes_before, finishes_with, lemma_utf8_injective, text_begins_with, text_eq,
};
use chrono::NaiveDateTime;
use vstd::prelude::*;
use vstd::string::*;
use vstd::utf8::*;

verus! {

/// A file name with the extension `etag`: something, and `.etag` behind it.
pub open spec fn is_etag_file(name: Seq<char>) -> bool {
    finishes_with(name, ".etag"@) && name.len() > 5
}

/// A path with slashes for backslashes.
pub open spec fn slashed(path: Seq<char>) -> Seq<char> {
    path.map_values(|c: char| if c == '\\' { '/' } else { c })
}

fn slashed_text(path: &str) -> (text: String)
    ensures
        text@ == slashed(path@),
{
    let n: usize = path.unicode_len();
    let mut text = String::new();
    let mut i: usize = 0;
    assert(text@ =~= slashed(path@).take(0));
    while i < n
        invariant
            i <= n,
            n == path@.len(),
            text@ == slashed(path@).take(i as int),
        decreases n - i,
    {
        if path.get_char(i) == '\\' {
            text.append("/");
            proof {
                reveal_strlit("/");
            }
        } else {
            text.append(path.substring_char(i, i + 1));
        }
        assert(text@ =~= slashed(path@).take(i + 1));
        i += 1;
    }
    assert(slashed(path@).take(n as int) =~= slashed(path@));
    text
}

fn has_etag_extension(name: &str) -> (yes: bool)
    ensures
        yes == is_etag_file(name@),
{
    proof {
        reveal_strlit(".etag");
    }
    let n: usize = name.unicode_len();
    if n <= 5 {
        return false;
    }
    let end = name.substring_char(n - 5, n);
    assert(end@ =~= name@.skip(n - 5));
    text_eq(end, ".etag")
}

/// A directory that is read.
#[derive(Clone, Copy, Debug, PartialEq, Eq, Structural)]
pub enum Directory {
    /// The one that holds all objects.
    Root,
    /// The one that the prefix names.
    Named,
    /// The one that the one named by the prefix is in.
    Beside,
    /// One that was found; the number stands for it.
    Found(usize),
}

/// The slash at `i` is the last one.
pub open spec fn is_last_slash(path: Seq<char>, i: int) -> bool {
    &&& 0 <= i < path.len()
    &&& path[i] == '/'
    &&& forall|j: int| i < j < path.len() ==> #[trigger] path[j] != '/'
}

/// The path of the directory that the path is in: what is before its last slash.
pub open spec fn parent(path: Seq<char>) -> Seq<char> {
    if exists|i: int| #[trigger] is_last_slash(path, i) {
        path.take(choose|i: int| #[trigger] is_last_slash(path, i))
    } else {
        Seq::empty()
    }
}

/// The path of the directory that the path is in.
pub fn parent_path(path: &str) -> (text: String)
    ensures
        text@ == parent(path@),
{
    let n: usize = path.unicode_len();
    let mut i: usize = n;
    while i > 0
        invariant
            i <= n,
            n == path@.len(),
            forall|j: int| i <= j < n ==> #[trigger] path@[j] != '/',
        decreases i,
    {
        i -= 1;
        if path.get_char(i) == '/' {
            assert(is_last_slash(path@, i as int));
            assert(forall|k: int| #[trigger] is_last_slash(path@, k) ==> k == i);
            let text = path.substring_char(0, i);
            assert(text@ =~= path@.take(i as int));
            return text.to_string();
        }
    }
    let text = String::new();
    assert(text@ =~= Seq::<char>::empty());
    text
}

/// The path of a directory with a slash behind it: what the paths of the files
/// in it begin with. For the directory that holds all objects it is empty.
pub open spec fn inside(directory: Seq<char>) -> Seq<char> {
    if is_whole(directory) {
        directory
    } else {
        directory.push('/')
    }
}

/// Where the prefix names a directory, nothing beside it begins with the prefix.
pub open spec fn is_whole(prefix: Seq<char>) -> bool {
    prefix.len() == 0 || prefix.last() == '/'
}

/// The path begins with the prefix, and goes on behind it.
pub open spec fn goes_beyond(prefix: Seq<char>, path: Seq<char>) -> bool {
    begins_with(path, prefix) && path.len() > prefix.len()
}

fn is_beyond(prefix: &str, path: &str) -> (yes: bool)
    ensures
        yes == goes_beyond(prefix@, path@),
{
    text_begins_with(path, prefix) && path.unicode_len() > prefix.unicode_len()
}

/// An entry of a directory, or what became of another access.
pub enum ListEvent {
    /// The directory was opened.
    Opened,
    /// The directory could not be opened.
    OpenFailed(ReadFailure),
    /// The next entry is a directory, with this path from the root; the number
    /// stands for it.
    Directory { dir: usize, path: String },
    /// The next entry is a file, with this name and this path from the root.
    File { name: String, path: String },
    /// The file has this size and, if it could be read, this etag.
    Inspected { size: u64, etag: Option<String> },
    /// There are no more entries.
    EndOfDirectory,
    /// Something else failed, with this message.
    Failed(String),
}

/// What has to be done next in listing objects.
pub enum ListAction {
    /// Open the directory.
    OpenDirectory(Directory),
    /// Look at the next entry of the directory.
    NextEntry,
    /// Read the etag and the size of the object with this key.
    Inspect(String),
    /// Return this.
    Done(StorageResult<Vec<ObjectMeta>>),
}

/// Objects that are being listed.
pub struct Lister {
    pub prefix: String,
    /// What is read is beside the directory that the prefix names.
    pub beside: bool,
    /// The directories that are still to be read, the next one last.
    pub pending: Vec<Directory>,
    pub found: Vec<ObjectMeta>,
    /// The key of the object that is being inspected.
    pub inspecting: Option<String>,
}

/// The file is an object to be listed.
pub open spec fn wanted(prefix: Seq<char>, name: Seq<char>, path: Seq<char>) -> bool {
    !is_etag_file(name) && begins_with(slashed(path), prefix)
}

/// The etag that is shown: an empty one where none could be read.
pub open spec fn shown_etag(etag: Option<String>) -> Seq<char> {
    match etag {
        Some(e) => e@,
        None => Seq::empty(),
    }
}

/// The description of an object that was inspected at the time `now`.
pub open spec fn inspected_meta(
    key: Seq<char>,
    size: u64,
    etag: Option<String>,
    now: NaiveDateTime,
) -> ObjectMetaView {
    ObjectMetaView { key, size, etag: shown_etag(etag), last_modified: now }
}

/// A directory is read to its end: the next one is opened, and after the last
/// one the objects are returned in the order of their keys.
pub open spec fn directory_left(before: Lister, after: Lister, action: ListAction) -> bool {
    if before.pending@.len() > 0 {
        &&& after.pending@ == before.pending@.drop_last()
        &&& after.beside == (before.beside || before.pending@.last() == Directory::Beside)
        &&& after.found@ == before.found@
        &&& after.inspecting == before.inspecting
        &&& action == ListAction::OpenDirectory(before.pending@.last())
    } else {
        action matches ListAction::Done(Ok(list)) && stably_sorted(before.found@, list@)
    }
}

/// The directory is to be read: it is one in the directory where the listing
/// began, or it is beside that one and has a longer name.
pub open spec fn is_kept(lister: Lister, path: Seq<char>) -> bool {
    !lister.beside || goes_beyond(lister.prefix@, slashed(path))
}

/// How listing goes on after an event at the time `now`. Files with the
/// extension `etag` and those whose path does not begin with the prefix are
/// passed over; directories are read later, the last one found first. A
/// directory that has disappeared ends the listing with what was found so far;
/// any other failure is the answer.
pub open spec fn list_stepped(
    before: Lister,
    event: ListEvent,
    now: NaiveDateTime,
    after: Lister,
    action: ListAction,
) -> bool {
    &&& after.prefix == before.prefix
    &&& match event {
        ListEvent::Opened => {
            &&& after.pending@ == before.pending@
            &&& after.beside == before.beside
            &&& after.found@ == before.found@
            &&& after.inspecting == before.inspecting
            &&& action is NextEntry
        },
        ListEvent::OpenFailed(f) => if f.not_found {
            action matches ListAction::Done(Ok(list)) && list@ == before.found@
        } else {
            action matches ListAction::Done(Err(e)) && e@ == StorageErrorView::Backend(f.message@)
        },
        ListEvent::Failed(m) => action matches ListAction::Done(Err(e)) && e@
            == StorageErrorView::Backend(m@),
        ListEvent::Directory { dir, path } => {
            &&& after.pending@ == if is_kept(before, path@) {
                before.pending@.push(Directory::Found(dir))
            } else {
                before.pending@
            }
            &&& after.beside == before.beside
            &&& after.found@ == before.found@
            &&& after.inspecting == before.inspecting
            &&& action is NextEntry
        },
        ListEvent::File { name, path } => {
            &&& after.pending@ == before.pending@
            &&& after.beside == before.beside
            &&& after.found@ == before.found@
            &&& if wanted(before.prefix@, name@, path@) {
                &&& action matches ListAction::Inspect(key) && key@ == slashed(path@)
                &&& after.inspecting matches Some(key) && key@ == slashed(path@)
            } else {
                &&& action is NextEntry
                &&& after.inspecting == before.inspecting
            }
        },
        ListEvent::Inspected { size, etag } => {
            &&& after.pending@ == before.pending@
            &&& after.beside == before.beside
            &&& after.inspecting is None
            &&& after.found@.len() == before.found@.len() + 1
            &&& after.found@.drop_last() == before.found@
            &&& after.found@.last()@ == inspected_meta(
                before.inspecting->0@,
                size,
                etag,
                now,
            )
            &&& action is NextEntry
        },
        ListEvent::EndOfDirectory => directory_left(before, after, action),
    }
}

/// The directory that a listing begins with: the one that the prefix names, or
/// else the one that holds all objects.
pub open spec fn first_directory(named: bool) -> Directory {
    if named {
        Directory::Named
    } else {
        Directory::Root
    }
}

/// What is to be read after the first directory: what is beside the one that
/// the prefix names, as something there can have a longer name.
pub open spec fn first_pending(prefix: Seq<char>, named: bool) -> Seq<Directory> {
    if named && !is_whole(prefix) {
        seq![Directory::Beside]
    } else {
        Seq::empty()
    }
}

/// A listing begins so.
pub open spec fn list_begun(prefix: Seq<char>, named: bool, lister: Lister) -> bool {
    &&& lister.prefix@ == prefix
    &&& !lister.beside
    &&& lister.pending@ == first_pending(prefix, named)
    &&& lister.found@ == Seq::<ObjectMeta>::empty()
    &&& lister.inspecting is None
}

impl Lister {
    /// The event can come now: an object that is to be inspected is, unless
    /// that fails, and no other is.
    pub open spec fn expects(&self, event: ListEvent) -> bool {
        self.inspecting is Some && !(event is Failed) <==> event is Inspected
    }

    /// Begins to list the objects whose keys begin with `prefix`; `named` says
    /// whether the prefix is the path of a directory.
    pub fn begin(prefix: &str, named: bool) -> (begun: (Lister, ListAction))
        ensures
            list_begun(prefix@, named, begun.0),
            begun.1 == ListAction::OpenDirectory(first_directory(named)),
    {
        let mut pending: Vec<Directory> = Vec::new();
        let n: usize = prefix.unicode_len();
        if named && n > 0 && prefix.get_char(n - 1) != '/' {
            pending.push(Directory::Beside);
        }
        assert(pending@ =~= first_pending(prefix@, named));
        let lister = Lister {
            prefix: prefix.to_string(),
            beside: false,
            pending,
            found: Vec::new(),
            inspecting: None,
        };
        let first = if named {
            Directory::Named
        } else {
            Directory::Root
        };
        (lister, ListAction::OpenDirectory(first))
    }

    fn leave_directory(&mut self) -> (action: ListAction)
        ensures
            final(self).prefix == old(self).prefix,
            directory_left(*old(self), *final(self), action),
    {
        match self.pending.pop() {
            Some(d) => {
                if d == Directory::Beside {
                    self.beside = true;
                }
                ListAction::OpenDirectory(d)
            },
            None => {
                let mut found: Vec<ObjectMeta> = Vec::new();
                found.append(&mut self.found);
                assert(found@ =~= old(self).found@);
                ListAction::Done(Ok(sort_by_text(found)))
            },
        }
    }

    /// Goes on after an event at the time `now`.
    pub fn step_at(&mut self, event: ListEvent, now: NaiveDateTime) -> (action: ListAction)
        requires
            old(self).expects(event),
        ensures
            list_stepped(*old(self), event, now, *final(self), action),
    {
        match event {
            ListEvent::Opened => ListAction::NextEntry,
            ListEvent::OpenFailed(f) => {
                if f.not_found {
                    let mut found: Vec<ObjectMeta> = Vec::new();
                    found.append(&mut self.found);
                    assert(found@ =~= old(self).found@);
                    ListAction::Done(Ok(found))
                } else {
                    ListAction::Done(Err(StorageError::Backend(f.message)))
                }
            },
            ListEvent::Failed(m) => ListAction::Done(Err(StorageError::Backend(m))),
            ListEvent::Directory { dir, path } => {
                if !self.beside || is_beyond(
                    self.prefix.as_str(),
                    slashed_text(path.as_str()).as_str(),
                ) {
                    self.pending.push(Directory::Found(dir));
                }
                ListAction::NextEntry
            },
            ListEvent::File { name, path } => {
                if has_etag_extension(name.as_str()) {
                    return ListAction::NextEntry;
                }
                let key = slashed_text(path.as_str());
                if !text_begins_with(key.as_str(), self.prefix.as_str()) {
                    return ListAction::NextEntry;
                }
                self.inspecting = Some(key.clone());
                ListAction::Inspect(key)
            },
            ListEvent::Inspected { size, etag } => {
                let etag = match etag {
                    Some(e) => e,
                    None => {
                        let none = String::new();
                        assert(none@ =~= Seq::<char>::empty());
                        none
                    },
                };
                if let Some(key) = self.inspecting.take() {
                    self.found.push(ObjectMeta { key, size, etag, last_modified: now });
                    assert(self.found@.drop_last() =~= old(self).found@);
                }
                ListAction::NextEntry
            },
            ListEvent::EndOfDirectory => self.leave_directory(),
        }
    }

    /// Goes on after an event, now.
    pub fn step(&mut self, event: ListEvent) -> (action: ListAction)
        requires
            old(self).expects(event),
        ensures
            exists|now: NaiveDateTime| #[trigger]
                list_stepped(*old(self), event, now, *final(self), action),
    {
        let now = utc_now();
        self.step_at(event, now)
    }
}

/// A listing in which nothing failed and no directory disappeared, from its
/// beginning to its end: the states that it goes through, what happens in each,
/// when, and what is done next.
pub open spec fn list_history(
    prefix: Seq<char>,
    named: bool,
    states: Seq<Lister>,
    events: Seq<ListEvent>,
    times: Seq<NaiveDateTime>,
    actions: Seq<ListAction>,
) -> bool {
    &&& events.len() > 0
    &&& states.len() == events.len() + 1
    &&& times.len() == events.len()
    &&& actions.len() == events.len()
    &&& list_begun(prefix, named, states[0])
    &&& actions.last() is Done
    &&& forall|i: int| #![trigger events[i]]
        0 <= i < events.len() ==> {
            &&& list_stepped(states[i], events[i], times[i], states[i + 1], actions[i])
            &&& states[i].expects(events[i])
            &&& !(events[i] is Failed)
            &&& !(events[i] is OpenFailed)
            &&& i < events.len() - 1 ==> !(actions[i] is Done)
        }
}

/// The path of the file or the directory that comes with the event.
pub open spec fn event_path(event: ListEvent) -> Seq<char> {
    match event {
        ListEvent::Directory { path, .. } => path@,
        ListEvent::File { path, .. } => path@,
        _ => Seq::empty(),
    }
}

/// The event is a file to be listed.
pub open spec fn is_wanted(prefix: Seq<char>, event: ListEvent) -> bool {
    event matches ListEvent::File { name, path } && wanted(prefix, name@, path@)
}

/// The objects among the first `n` events: each wanted file with what came of
/// inspecting it.
pub open spec fn objects_seen(
    prefix: Seq<char>,
    events: Seq<ListEvent>,
    times: Seq<NaiveDateTime>,
    n: int,
) -> Seq<ObjectMetaView>
    decreases n,
{
    if n < 2 {
        Seq::empty()
    } else {
        let before = objects_seen(prefix, events, times, n - 1);
        if is_wanted(prefix, events[n - 2]) {
            before.push(seen(events, times, n - 2))
        } else {
            before
        }
    }
}

/// The description of the object whose file came at step `i`.
pub open spec fn seen(
    events: Seq<ListEvent>,
    times: Seq<NaiveDateTime>,
    i: int,
) -> ObjectMetaView {
    inspected_meta(
        slashed(event_path(events[i])),
        events[i + 1]->size,
        events[i + 1]->etag,
        times[i + 1],
    )
}

/// The views of a list.
pub open spec fn viewed(list: Seq<ObjectMeta>) -> Seq<ObjectMetaView> {
    list.map_values(|m: ObjectMeta| m@)
}

/// The directory was opened.
pub open spec fn was_opened(named: bool, actions: Seq<ListAction>, dir: Directory) -> bool {
    dir == first_directory(named) || exists|j: int|
        0 <= j < actions.len() && #[trigger] actions[j] == ListAction::OpenDirectory(dir)
}

/// The directory was opened or is to be.
spec fn is_in_hand(
    named: bool,
    actions: Seq<ListAction>,
    pending: Seq<Directory>,
    dir: Directory,
) -> bool {
    pending.contains(dir) || was_opened(named, actions, dir)
}

/// A directory that is in hand stays in hand.
proof fn lemma_in_hand(
    named: bool,
    actions: Seq<ListAction>,
    before: Lister,
    event: ListEvent,
    now: NaiveDateTime,
    after: Lister,
    p: int,
    dir: Directory,
)
    requires
        0 <= p < actions.len(),
        list_stepped(before, event, now, after, actions[p]),
        !(event is Failed),
        !(event is OpenFailed),
        !(actions[p] is Done),
        is_in_hand(named, actions, before.pending@, dir),
    ensures
        is_in_hand(named, actions, after.pending@, dir),
{
    let waiting = before.pending@;
    let left = after.pending@;
    if waiting.contains(dir) {
        let q = choose|q: int| 0 <= q < waiting.len() && waiting[q] == dir;
        if event is EndOfDirectory && q == waiting.len() - 1 {
            assert(actions[p] == ListAction::OpenDirectory(dir));
        } else {
            assert(left[q] == dir);
        }
    }
}

proof fn lemma_listing(
    prefix: Seq<char>,
    named: bool,
    states: Seq<Lister>,
    events: Seq<ListEvent>,
    times: Seq<NaiveDateTime>,
    actions: Seq<ListAction>,
    n: int,
)
    requires
        list_history(prefix, named, states, events, times, actions),
        0 <= n < events.len(),
    ensures
        states[n].prefix@ == prefix,
        viewed(states[n].found@) == objects_seen(prefix, events, times, n),
        states[n].inspecting is Some <==> n > 0 && is_wanted(prefix, events[n - 1]),
        states[n].inspecting matches Some(k) ==> k@ == slashed(event_path(events[n - 1])),
        named && !is_whole(prefix) ==> is_in_hand(
            named,
            actions,
            states[n].pending@,
            Directory::Beside,
        ),
        !(named && !is_whole(prefix)) ==> !states[n].beside && !states[n].pending@.contains(
            Directory::Beside,
        ),
        forall|i: int| #![trigger events[i]]
            0 <= i < n && events[i] is Directory && is_kept(states[i], event_path(events[i]))
                ==> is_in_hand(
                named,
                actions,
                states[n].pending@,
                Directory::Found(events[i]->dir),
            ),
    decreases n,
{
    if n == 0 {
        assert(viewed(states[n].found@) =~= objects_seen(prefix, events, times, n));
        if named && !is_whole(prefix) {
            assert(states[0].pending@[0] == Directory::Beside);
        }
    } else {
        let p = n - 1;
        lemma_listing(prefix, named, states, events, times, actions, p);
        let event = events[p];
        let action = actions[p];
        assert(list_stepped(states[p], event, times[p], states[n], action));
        assert(states[p].expects(event));
        let before = states[p].found@;
        let after = states[n].found@;
        if event is Inspected {
            assert(after =~= after.drop_last().push(after.last()));
            assert(viewed(after) =~= viewed(before).push(after.last()@));
        }
        assert(viewed(after) =~= objects_seen(prefix, events, times, n));
        if named && !is_whole(prefix) {
            lemma_in_hand(
                named,
                actions,
                states[p],
                event,
                times[p],
                states[n],
                p,
                Directory::Beside,
            );
        } else {
            let waiting = states[p].pending@;
            let left = states[n].pending@;
            if left.contains(Directory::Beside) {
                let q = choose|q: int| 0 <= q < left.len() && left[q] == Directory::Beside;
                assert(waiting[q] == Directory::Beside);
            }
            if waiting.len() > 0 && waiting.last() == Directory::Beside {
                assert(waiting[waiting.len() - 1] == Directory::Beside);
            }
        }
        assert forall|i: int| #![trigger events[i]]
            0 <= i < n && events[i] is Directory && is_kept(
                states[i],
                event_path(events[i]),
            ) implies is_in_hand(
            named,
            actions,
            states[n].pending@,
            Directory::Found(events[i]->dir),
        ) by {
            let dir = Directory::Found(events[i]->dir);
            if i == p {
                let left = states[n].pending@;
                assert(left[left.len() - 1] == dir);
            } else {
                lemma_in_hand(named, actions, states[p], event, times[p], states[n], p, dir);
            }
        }
    }
}

proof fn lemma_objects_seen(
    prefix: Seq<char>,
    events: Seq<ListEvent>,
    times: Seq<NaiveDateTime>,
    n: int,
)
    requires
        0 <= n <= events.len(),
    ensures
        forall|i: int| #![trigger events[i]]
            0 <= i < n - 1 && is_wanted(prefix, events[i]) ==> objects_seen(
                prefix,
                events,
                times,
                n,
            ).contains(seen(events, times, i)),
        forall|m: int| #![trigger objects_seen(prefix, events, times, n)[m]]
            0 <= m < objects_seen(prefix, events, times, n).len() ==> seen_by(
                prefix,
                events,
                times,
                n,
                objects_seen(prefix, events, times, n)[m],
            ),
    decreases n,
{
    if n >= 2 {
        lemma_objects_seen(prefix, events, times, n - 1);
        let before = objects_seen(prefix, events, times, n - 1);
        let after = objects_seen(prefix, events, times, n);
        assert forall|i: int| #![trigger events[i]]
            0 <= i < n - 1 && is_wanted(prefix, events[i]) implies after.contains(
            seen(events, times, i),
        ) by {
            let meta = seen(events, times, i);
            if i < n - 2 {
                let m = choose|m: int| 0 <= m < before.len() && before[m] == meta;
                assert(after[m] == meta);
            } else {
                assert(after[after.len() - 1] == meta);
            }
        }
        assert forall|m: int| #![trigger after[m]] 0 <= m < after.len() implies seen_by(
            prefix,
            events,
            times,
            n,
            after[m],
        ) by {
            if m < before.len() {
                assert(after[m] == before[m]);
                assert(seen_by(prefix, events, times, n - 1, before[m]));
                let i = choose|i: int| #![trigger events[i]]
                    0 <= i < n - 2 && is_wanted(prefix, events[i]) && before[m] == seen(
                        events,
                        times,
                        i,
                    );
                let event = events[i];
            } else {
                let event = events[n - 2];
                assert(after[m] == seen(events, times, n - 2));
            }
        }
    }
}

/// The description is that of a wanted file among the first `n` events.
pub open spec fn seen_by(
    prefix: Seq<char>,
    events: Seq<ListEvent>,
    times: Seq<NaiveDateTime>,
    n: int,
    meta: ObjectMetaView,
) -> bool {
    exists|i: int| #![trigger events[i]]
        0 <= i < n - 1 && is_wanted(prefix, events[i]) && meta == seen(events, times, i)
}

/// Each file came once.
pub open spec fn files_come_once(events: Seq<ListEvent>) -> bool {
    forall|i: int, j: int| #![trigger events[i], events[j]]
        0 <= i < j < events.len() && events[i] is File && events[j] is File ==> slashed(
            event_path(events[i]),
        ) != slashed(event_path(events[j]))
}

proof fn lemma_seen_once(
    prefix: Seq<char>,
    events: Seq<ListEvent>,
    times: Seq<NaiveDateTime>,
    n: int,
)
    requires
        0 <= n <= events.len(),
        files_come_once(events),
    ensures
        forall|a: int, b: int|
            #![trigger objects_seen(prefix, events, times, n)[a], objects_seen(prefix, events, times, n)[b]]
            0 <= a < b < objects_seen(prefix, events, times, n).len() ==> objects_seen(
                prefix,
                events,
                times,
                n,
            )[a].key != objects_seen(prefix, events, times, n)[b].key,
    decreases n,
{
    if n >= 2 {
        lemma_seen_once(prefix, events, times, n - 1);
        lemma_objects_seen(prefix, events, times, n - 1);
        let before = objects_seen(prefix, events, times, n - 1);
        let after = objects_seen(prefix, events, times, n);
        assert forall|a: int, b: int| #![trigger after[a], after[b]]
            0 <= a < b < after.len() implies after[a].key != after[b].key by {
            assert(after[a] == before[a]);
            if b < before.len() {
                assert(after[b] == before[b]);
            } else {
                assert(seen_by(prefix, events, times, n - 1, before[a]));
                let i = choose|i: int| #![trigger events[i]]
                    0 <= i < n - 2 && is_wanted(prefix, events[i]) && before[a] == seen(
                        events,
                        times,
                        i,
                    );
                let first = events[i];
                let second = events[n - 2];
                assert(slashed(event_path(first)) != slashed(event_path(second)));
            }
        }
    }
}

/// A listing returns every wanted file that came, with the size and the etag
/// that inspecting it gave, and nothing else, in the order of the keys; each
/// once, where each file came once. By then every directory that was to be read
/// has been opened.
pub proof fn law_listing_is_complete(
    prefix: Seq<char>,
    named: bool,
    states: Seq<Lister>,
    events: Seq<ListEvent>,
    times: Seq<NaiveDateTime>,
    actions: Seq<ListAction>,
)
    requires
        list_history(prefix, named, states, events, times, actions),
    ensures
        actions.last() matches ListAction::Done(Ok(list)) && {
            &&& ascending(list@)
            &&& files_come_once(events) ==> distinct_keys(list@)
            &&& forall|m: int| #![trigger list@[m]]
                0 <= m < list@.len() ==> seen_by(
                    prefix,
                    events,
                    times,
                    events.len() as int,
                    list@[m]@,
                )
            &&& forall|i: int|
                0 <= i < events.len() && #[trigger] is_wanted(prefix, events[i]) ==> {
                    &&& i + 1 < events.len()
                    &&& events[i + 1] is Inspected
                    &&& viewed(list@).contains(seen(events, times, i))
                }
        },
        named && !is_whole(prefix) ==> was_opened(named, actions, Directory::Beside),
        !(named && !is_whole(prefix)) ==> forall|i: int| #![trigger states[i]]
            0 <= i < events.len() ==> !states[i].beside,
        forall|i: int| #![trigger events[i]]
            0 <= i < events.len() && events[i] is Directory && is_kept(
                states[i],
                event_path(events[i]),
            ) ==> was_opened(named, actions, Directory::Found(events[i]->dir)),
{
    let n = events.len() - 1;
    let last = events[n];
    lemma_listing(prefix, named, states, events, times, actions, n);
    lemma_objects_seen(prefix, events, times, n);
    assert(list_stepped(states[n], last, times[n], states[n + 1], actions[n]));
    assert(states[n].expects(last));
    let found = states[n].found@;
    let list = actions.last()->Done_0->Ok_0@;
    let objects = objects_seen(prefix, events, times, n);
    assert(stably_sorted(found, list));
    if files_come_once(events) {
        lemma_seen_once(prefix, events, times, n);
        assert forall|a: int, b: int| #![trigger found[a], found[b]]
            0 <= a < b < found.len() implies found[a].key@ != found[b].key@ by {
            assert(objects[a] == found[a]@ && objects[b] == found[b]@);
        }
        assert(distinct_keys(found));
        lemma_sorted_distinct(found, list);
    }
    assert forall|m: int| #![trigger list[m]] 0 <= m < list.len() implies seen_by(
        prefix,
        events,
        times,
        events.len() as int,
        list[m]@,
    ) by {
        lemma_sorted_contains(found, list, list[m]);
        let q = choose|q: int| 0 <= q < found.len() && found[q] == list[m];
        assert(objects[q] == list[m]@);
        assert(seen_by(prefix, events, times, n, objects[q]));
        let i = choose|i: int| #![trigger events[i]]
            0 <= i < n - 1 && is_wanted(prefix, events[i]) && objects[q] == seen(events, times, i);
        let event = events[i];
    }
    assert forall|i: int|
        0 <= i < events.len() && #[trigger] is_wanted(prefix, events[i]) implies {
        &&& i + 1 < events.len()
        &&& events[i + 1] is Inspected
        &&& viewed(list).contains(seen(events, times, i))
    } by {
        assert(i < n);
        lemma_listing(prefix, named, states, events, times, actions, i + 1);
        let next = events[i + 1];
        assert(states[i + 1].expects(next));
        let meta = seen(events, times, i);
        assert(objects.contains(meta));
        let q = choose|q: int| 0 <= q < objects.len() && objects[q] == meta;
        assert(found[q]@ == meta);
        lemma_sorted_contains(found, list, found[q]);
        let r = choose|r: int| 0 <= r < list.len() && list[r] == found[q];
        assert(viewed(list)[r] == meta);
    }
    if !(named && !is_whole(prefix)) {
        assert forall|i: int| #![trigger states[i]]
            0 <= i < events.len() implies !states[i].beside by {
            lemma_listing(prefix, named, states, events, times, actions, i);
        }
    }
    assert forall|i: int| #![trigger events[i]]
        0 <= i < events.len() && events[i] is Directory && is_kept(
            states[i],
            event_path(events[i]),
        ) implies was_opened(named, actions, Directory::Found(events[i]->dir)) by {
        assert(is_in_hand(
            named,
            actions,
            states[n].pending@,
            Directory::Found(events[i]->dir),
        ));
    }
}

/// A key that is the path of a file with the extension `etag`.
pub open spec fn is_etag_path(path: Seq<char>) -> bool {
    &&& finishes_with(path, ".etag"@)
    &&& path.len() > 5
    &&& path[path.len() - 6] != '/'
}

/// The name is the last part of the path.
pub open spec fn is_name_of(name: Seq<char>, path: Seq<char>) -> bool {
    &&& !name.contains('/')
    &&& finishes_with(path, name)
    &&& path.len() > name.len() ==> path[path.len() - name.len() - 1] == '/'
}

/// The file lies in the directory, or in one inside it.
pub open spec fn lies_in(directory: Seq<char>, path: Seq<char>) -> bool {
    begins_with(path, inside(directory))
}

/// The path of a directory; `paths` holds those of the ones that were found.
pub open spec fn directory_path(
    prefix: Seq<char>,
    paths: Seq<Seq<char>>,
    dir: Directory,
) -> Seq<char> {
    match dir {
        Directory::Root => Seq::empty(),
        Directory::Named => prefix,
        Directory::Beside => parent(prefix),
        Directory::Found(n) => paths[n as int],
    }
}

/// The file came.
pub open spec fn came(events: Seq<ListEvent>, path: Seq<char>) -> bool {
    exists|i: int| #![trigger events[i]]
        0 <= i < events.len() && events[i] is File && event_path(events[i]) == path
}

/// A directory inside `directory` came that the file lies in.
pub open spec fn came_in_directory(
    events: Seq<ListEvent>,
    directory: Seq<char>,
    path: Seq<char>,
) -> bool {
    exists|i: int| #![trigger events[i]]
        0 <= i < events.len() && events[i] is Directory && event_path(events[i]).len()
            > directory.len() && lies_in(event_path(events[i]), path)
}

/// The events tell what the files are, where they do not change meanwhile: a
/// file comes once and by its name, what is said of one that is inspected is
/// what is there, and of a directory that was opened every file comes, or a
/// directory that it lies in. `paths` holds the path of each directory that was
/// found.
pub open spec fn tells_of_files(
    files: Files,
    prefix: Seq<char>,
    named: bool,
    paths: Seq<Seq<char>>,
    events: Seq<ListEvent>,
    actions: Seq<ListAction>,
) -> bool {
    &&& files_come_once(events)
    &&& forall|i: int| #![trigger events[i]]
        0 <= i < events.len() ==> match events[i] {
            ListEvent::Directory { dir, path } => {
                &&& slashed(path@) == path@
                &&& !is_whole(path@)
                &&& dir < paths.len()
                &&& paths[dir as int] == path@
            },
            ListEvent::File { name, path } => {
                &&& slashed(path@) == path@
                &&& is_name_of(name@, path@)
                &&& files.contains_key(path@)
            },
            _ => true,
        }
    &&& forall|i: int|
        0 < i < events.len() && events[i] is Inspected ==> #[trigger] tells_of_object(
            files,
            events,
            i,
        )
    &&& forall|dir: Directory, path: Seq<char>|
        #![trigger was_opened(named, actions, dir), files.contains_key(path)]
        was_opened(named, actions, dir) && files.contains_key(path) && lies_in(
            directory_path(prefix, paths, dir),
            path,
        ) ==> came(events, path) || came_in_directory(
            events,
            directory_path(prefix, paths, dir),
            path,
        )
}

/// What is said at step `i` of the file that came before it is so.
pub open spec fn tells_of_object(files: Files, events: Seq<ListEvent>, i: int) -> bool {
    is_file_seen(files, event_path(events[i - 1]), events[i]->size, events[i]->etag)
}

/// The size and the etag are those that the files hold.
pub open spec fn is_file_seen(
    files: Files,
    path: Seq<char>,
    size: u64,
    etag: Option<String>,
) -> bool {
    &&& size == files[path].len()
    &&& match etag {
        Some(e) => etag_bytes(files, path) == Some(encode_utf8(e@)),
        None => has_no_etag(files, path),
    }
}

/// The file for the etag is missing, or it holds no text.
pub open spec fn has_no_etag(files: Files, path: Seq<char>) -> bool {
    forall|text: Seq<char>| etag_bytes(files, path) != Some(#[trigger] encode_utf8(text))
}

/// The description is that of the files: the size of the data, and the etag,
/// which is empty where there is none.
pub open spec fn is_described(files: Files, meta: ObjectMetaView) -> bool {
    &&& meta.size == files[meta.key].len()
    &&& etag_bytes(files, meta.key) == Some(encode_utf8(meta.etag)) || has_no_etag(files, meta.key)
        && meta.etag.len() == 0
}

proof fn lemma_etag_name(name: Seq<char>, path: Seq<char>)
    requires
        is_name_of(name, path),
    ensures
        is_etag_file(name) == is_etag_path(path),
{
    reveal_strlit(".etag");
    let n = name.len() as int;
    let p = path.len() as int;
    assert(path.skip(p - n) == name);
    assert forall|i: int| 0 <= i < n implies #[trigger] name[i] == path[p - n + i] && name[i]
        != '/' by {
        assert(path.skip(p - n)[i] == path[p - n + i]);
        assert(name.contains(name[i]));
    }
    let end = ".etag"@;
    if n > 5 {
        assert(name.skip(n - 5) =~= path.skip(p - 5));
        assert(name[n - 6] == path[p - 6]);
    } else if is_etag_path(path) {
        assert(path.skip(p - 5) == end);
        if n < 5 {
            assert(path.skip(p - 5)[4 - n] == path[p - n - 1]);
            assert(end[4 - n] != '/');
        }
    }
}

/// Of two beginnings of a text the shorter one is a beginning of the longer.
proof fn lemma_beginnings(text: Seq<char>, a: Seq<char>, b: Seq<char>)
    requires
        begins_with(text, a),
        begins_with(text, b),
        a.len() <= b.len(),
    ensures
        begins_with(b, a),
{
    assert(text.take(a.len() as int) == a);
    assert(text.take(b.len() as int) == b);
    assert(b.take(a.len() as int) =~= a);
}

/// Every file comes that lies in a directory that was opened, where all
/// directories are kept or the directory begins with the prefix.
proof fn lemma_wanted_comes(
    prefix: Seq<char>,
    named: bool,
    states: Seq<Lister>,
    events: Seq<ListEvent>,
    times: Seq<NaiveDateTime>,
    actions: Seq<ListAction>,
    files: Files,
    paths: Seq<Seq<char>>,
    dir: Directory,
    path: Seq<char>,
)
    requires
        list_history(prefix, named, states, events, times, actions),
        tells_of_files(files, prefix, named, paths, events, actions),
        files.contains_key(path),
        was_opened(named, actions, dir),
        lies_in(directory_path(prefix, paths, dir), path),
        !(named && !is_whole(prefix)) || begins_with(
            inside(directory_path(prefix, paths, dir)),
            prefix,
        ),
    ensures
        came(events, path),
    decreases path.len() - directory_path(prefix, paths, dir).len(),
{
    let directory = directory_path(prefix, paths, dir);
    if !came(events, path) {
        assert(came_in_directory(events, directory, path));
        let i = choose|i: int| #![trigger events[i]]
            0 <= i < events.len() && events[i] is Directory && event_path(events[i]).len()
                > directory.len() && lies_in(event_path(events[i]), path);
        let event = events[i];
        let inner = event_path(event);
        law_listing_is_complete(prefix, named, states, events, times, actions);
        lemma_listing(prefix, named, states, events, times, actions, i);
        assert(inside(inner).len() == inner.len() + 1);
        assert(inside(directory).len() <= directory.len() + 1);
        if named && !is_whole(prefix) {
            let d = inside(directory);
            lemma_beginnings(path, d, inside(inner));
            assert(inside(inner).take(inner.len() as int) =~= inner);
            assert(begins_with(inside(inner), inner));
            lemma_beginnings(inside(inner), d, inner);
            assert(prefix =~= inner.take(d.len() as int).take(prefix.len() as int));
            assert(inner.take(prefix.len() as int) =~= prefix);
            if inner.len() == prefix.len() {
                assert(inner =~= d);
            }
            assert(goes_beyond(prefix, inner));
            assert(inside(inner).take(prefix.len() as int) =~= prefix);
        }
        assert(states[i].prefix@ == prefix);
        assert(is_kept(states[i], inner));
        lemma_wanted_comes(
            prefix,
            named,
            states,
            events,
            times,
            actions,
            files,
            paths,
            Directory::Found(event->dir),
            path,
        );
    }
}

/// Every file comes that lies beside the directory that the prefix names, and
/// begins with the prefix.
proof fn lemma_beside_comes(
    prefix: Seq<char>,
    named: bool,
    states: Seq<Lister>,
    events: Seq<ListEvent>,
    times: Seq<NaiveDateTime>,
    actions: Seq<ListAction>,
    files: Files,
    paths: Seq<Seq<char>>,
    path: Seq<char>,
)
    requires
        list_history(prefix, named, states, events, times, actions),
        tells_of_files(files, prefix, named, paths, events, actions),
        named,
        !is_whole(prefix),
        files.contains_key(path),
        begins_with(path, prefix),
        !lies_in(prefix, path),
    ensures
        came(events, path),
{
    let beside = parent(prefix);
    law_listing_is_complete(prefix, named, states, events, times, actions);
    lemma_parent(prefix);
    assert(was_opened(named, actions, Directory::Beside));
    assert(prefix.take(inside(beside).len() as int) == inside(beside));
    assert(path.take(prefix.len() as int) == prefix);
    assert(path.take(inside(beside).len() as int) =~= inside(beside));
    assert(lies_in(beside, path));
    if !came(events, path) {
        assert(came_in_directory(events, beside, path));
        let i = choose|i: int| #![trigger events[i]]
            0 <= i < events.len() && events[i] is Directory && event_path(events[i]).len()
                > beside.len() && lies_in(event_path(events[i]), path);
        let event = events[i];
        let inner = event_path(event);
        lemma_listing(prefix, named, states, events, times, actions, i);
        let d = inside(inner);
        if d.len() <= prefix.len() {
            lemma_beginnings(path, d, prefix);
            assert(prefix.take(d.len() as int) == d);
            assert(prefix[inner.len() as int] == d[inner.len() as int]);
        } else {
            lemma_beginnings(path, prefix, d);
            assert(d.take(prefix.len() as int) == prefix);
            assert(inner.take(prefix.len() as int) =~= prefix);
            if inner.len() == prefix.len() {
                assert(inner =~= prefix);
            }
            assert(goes_beyond(prefix, inner));
            assert(is_kept(states[i], inner));
            lemma_wanted_comes(
                prefix,
                named,
                states,
                events,
                times,
                actions,
                files,
                paths,
                Directory::Found(event->dir),
                path,
            );
        }
    }
}

/// What lies beside a path lies in its parent, and the path has no slash behind
/// that of the parent.
proof fn lemma_parent(path: Seq<char>)
    requires
        !is_whole(path),
    ensures
        begins_with(path, inside(parent(path))),
        forall|i: int| parent(path).len() < i < path.len() ==> #[trigger] path[i] != '/',
{
    if exists|i: int| #[trigger] is_last_slash(path, i) {
        let i = choose|i: int| #[trigger] is_last_slash(path, i);
        let d = path.take(i);
        if is_whole(d) {
            assert(path.take(d.len() as int) =~= d);
        } else {
            assert(path.take(i + 1) =~= d.push('/'));
        }
    } else {
        assert(path.take(0) =~= Seq::<char>::empty());
        lemma_some_last_slash(path, path.len() as int);
    }
}

/// A path without a last slash has none at all.
proof fn lemma_some_last_slash(path: Seq<char>, n: int)
    requires
        0 <= n <= path.len(),
        forall|i: int| !(#[trigger] is_last_slash(path, i)),
        forall|j: int| n <= j < path.len() ==> #[trigger] path[j] != '/',
    ensures
        forall|j: int| 0 <= j < path.len() ==> #[trigger] path[j] != '/',
    decreases n,
{
    if n > 0 {
        assert(!is_last_slash(path, n - 1));
        lemma_some_last_slash(path, n - 1);
    }
}

/// A key of the list.
pub open spec fn lists_key(list: Seq<ObjectMeta>, key: Seq<char>) -> bool {
    exists|m: int| 0 <= m < list.len() && (#[trigger] list[m]).key@ == key
}

/// Listing files that do not change meanwhile returns exactly those whose
/// paths begin with the prefix, without those that hold etags: each once, in
/// the order of the keys, with the size of its data and its etag.
pub proof fn law_listing_is_exact(
    prefix: Seq<char>,
    named: bool,
    states: Seq<Lister>,
    events: Seq<ListEvent>,
    times: Seq<NaiveDateTime>,
    actions: Seq<ListAction>,
    files: Files,
    paths: Seq<Seq<char>>,
)
    requires
        list_history(prefix, named, states, events, times, actions),
        tells_of_files(files, prefix, named, paths, events, actions),
    ensures
        actions.last() matches ListAction::Done(Ok(list)) && {
            &&& ascending(list@)
            &&& distinct_keys(list@)
            &&& forall|key: Seq<char>| #[trigger]
                lists_key(list@, key) <==> files.contains_key(key) && !is_etag_path(key)
                    && begins_with(key, prefix)
            &&& forall|m: int| #![trigger list@[m]]
                0 <= m < list@.len() ==> is_described(files, list@[m]@)
        },
{
    law_listing_is_complete(prefix, named, states, events, times, actions);
    let list = actions.last()->Done_0->Ok_0@;
    let n = events.len() as int;
    assert forall|m: int| #![trigger list[m]] 0 <= m < list.len() implies {
        &&& files.contains_key(list[m].key@)
        &&& !is_etag_path(list[m].key@)
        &&& begins_with(list[m].key@, prefix)
        &&& is_described(files, list[m]@)
    } by {
        assert(seen_by(prefix, events, times, n, list[m]@));
        let i = choose|i: int| #![trigger events[i]]
            0 <= i < n - 1 && is_wanted(prefix, events[i]) && list[m]@ == seen(events, times, i);
        let event = events[i];
        let next = events[i + 1];
        lemma_etag_name(event->name@, event_path(event));
        assert(is_wanted(prefix, event));
        assert(tells_of_object(files, events, i + 1));
    }
    assert forall|key: Seq<char>| #[trigger]
        lists_key(list, key) <==> files.contains_key(key) && !is_etag_path(key) && begins_with(
            key,
            prefix,
        ) by {
        if lists_key(list, key) {
            let m = choose|m: int| 0 <= m < list.len() && (#[trigger] list[m]).key@ == key;
        }
        if files.contains_key(key) && !is_etag_path(key) && begins_with(key, prefix) {
            let first = first_directory(named);
            if named && !is_whole(prefix) && !lies_in(prefix, key) {
                lemma_beside_comes(
                    prefix,
                    named,
                    states,
                    events,
                    times,
                    actions,
                    files,
                    paths,
                    key,
                );
            } else {
                if named && !is_whole(prefix) {
                    assert(inside(prefix).take(prefix.len() as int) =~= prefix);
                }
                assert(key.take(0) =~= Seq::<char>::empty());
                assert(was_opened(named, actions, first));
                lemma_wanted_comes(
                    prefix,
                    named,
                    states,
                    events,
                    times,
                    actions,
                    files,
                    paths,
                    first,
                    key,
                );
            }
            let i = choose|i: int| #![trigger events[i]]
                0 <= i < events.len() && events[i] is File && event_path(events[i]) == key;
            let event = events[i];
            lemma_etag_name(event->name@, event_path(event));
            assert(is_wanted(prefix, event));
            let meta = seen(events, times, i);
            assert(viewed(list).contains(meta));
            let m = choose|m: int| 0 <= m < viewed(list).len() && viewed(list)[m] == meta;
            assert(list[m]@ == meta);
        }
    }
}

/// An object that was stored is listed with its size and its etag, wherever its
/// key begins with the prefix.
pub proof fn law_stored_object_is_listed(
    prefix: Seq<char>,
    named: bool,
    states: Seq<Lister>,
    events: Seq<ListEvent>,
    times: Seq<NaiveDateTime>,
    actions: Seq<ListAction>,
    files: Files,
    paths: Seq<Seq<char>>,
    key: Seq<char>,
    data: Seq<u8>,
    etag: Seq<char>,
)
    requires
        list_history(prefix, named, states, events, times, actions),
        tells_of_files(
            stored_files(files, key, data, etag),
            prefix,
            named,
            paths,
            events,
            actions,
        ),
        is_plain(key),
        begins_with(key, prefix),
    ensures
        actions.last() matches ListAction::Done(Ok(list)) && exists|m: int|
            0 <= m < list@.len() && (#[trigger] list@[m]).key@ == key && list@[m].size
                == data.len() && list@[m].etag@ == etag,
{
    let after = stored_files(files, key, data, etag);
    law_listing_is_exact(prefix, named, states, events, times, actions, after, paths);
    let list = actions.last()->Done_0->Ok_0@;
    reveal_strlit(".etag");
    assert(etag_file(key).len() != key.len());
    assert(lists_key(list, key));
    let m = choose|m: int| 0 <= m < list.len() && (#[trigger] list[m]).key@ == key;
    assert(is_described(after, list[m]@));
    assert(etag_bytes(after, key) == Some(encode_utf8(etag)));
    lemma_utf8_injective(list[m].etag@, etag);
}

/// The file beside an object that holds its etag is not listed as an object.
pub proof fn law_etag_files_are_not_listed(key: Seq<char>, prefix: Seq<char>, path: Seq<char>)
    requires
        key.len() > 0,
    ensures
        !wanted(prefix, etag_file(key), path),
{
    reveal_strlit(".etag");
    assert(etag_file(key).skip(key.len() as int) =~= ".etag"@);
}

/// Where a listing begins: with the directory that the prefix names, and then with
/// what is beside it unless the prefix ends with a slash; or else with the
/// directory that holds all objects.
pub proof fn law_listing_begins(prefix: &str, named: bool, begun: (Lister, ListAction))
    requires
        call_ensures(Lister::begin, (prefix, named), begun),
    ensures
        begun.0.prefix@ == prefix@,
        begun.0.found@.len() == 0,
        begun.0.inspecting is None,
        !begun.0.beside,
        named ==> begun.1 == ListAction::OpenDirectory(Directory::Named),
        !named ==> begun.1 == ListAction::OpenDirectory(Directory::Root),
        named && prefix@.len() > 0 && prefix@[prefix@.len() - 1] != '/' ==> begun.0.pending@.len()
            == 1 && begun.0.pending@[0] == Directory::Beside,
        !named || prefix@.len() == 0 || prefix@[prefix@.len() - 1] == '/'
            ==> begun.0.pending@.len() == 0,
{
}

/// The directory that a path is in is what is before its last slash.
pub proof fn law_parents(path: &str, text: String, slash: int)
    requires
        call_ensures(parent_path, (path,), text),
    ensures
        0 <= slash < path@.len() && path@[slash] == '/' && (forall|j: int|
            slash < j < path@.len() ==> #[trigger] path@[j] != '/') ==> text@ == path@.take(slash),
        (forall|j: int| 0 <= j < path@.len() ==> #[trigger] path@[j] != '/') ==> text@.len() == 0,
{
    if 0 <= slash < path@.len() && path@[slash] == '/' && (forall|j: int|
        slash < j < path@.len() ==> #[trigger] path@[j] != '/') {
        assert(is_last_slash(path@, slash));
        let i = choose|i: int| #[trigger] is_last_slash(path@, i);
        assert(is_last_slash(path@, i));
        if i < slash {
            assert(path@[slash] != '/');
        } else if slash < i {
            assert(path@[i] != '/');
        }
    }
    if forall|j: int| 0 <= j < path@.len() ==> #[trigger] path@[j] != '/' {
        assert forall|i: int| !(#[trigger] is_last_slash(path@, i)) by {}
    }
}

/// The name ends with `.etag`, behind something.
pub open spec fn is_named_as_etag(name: Seq<char>) -> bool {
    &&& name.len() > 5
    &&& name[name.len() - 5] == '.'
    &&& name[name.len() - 4] == 'e'
    &&& name[name.len() - 3] == 't'
    &&& name[name.len() - 2] == 'a'
    &&& name[name.len() - 1] == 'g'
}

/// A file that comes is inspected, under its path with slashes, exactly where its
/// name is not that of a file for an etag and its path begins with the prefix.
/// Nothing else changes.
pub proof fn law_files_that_are_inspected(
    lister: &mut Lister,
    name: String,
    path: String,
    now: NaiveDateTime,
    action: ListAction,
    key: Seq<char>,
)
    requires
        call_ensures(Lister::step_at, (lister, ListEvent::File { name, path }, now), action),
        key.len() == path@.len(),
        forall|i: int| #![trigger key[i]]
            0 <= i < key.len() ==> key[i] == if path@[i] == '\\' {
                '/'
            } else {
                path@[i]
            },
    ensures
        ({
            let prefix = old(lister).prefix@;
            let inspected = !is_named_as_etag(name@) && prefix.len() <= key.len() && key.take(
                prefix.len() as int,
            ) == prefix;
            &&& inspected <==> action is Inspect
            &&& action matches ListAction::Inspect(k) ==> k@ == key && (
            final(lister).inspecting matches Some(j) && j@ == key)
            &&& !inspected ==> action is NextEntry && final(lister).inspecting == old(
                lister).inspecting
        }),
        final(lister).prefix@ == old(lister).prefix@,
        final(lister).beside == old(lister).beside,
        final(lister).pending@ == old(lister).pending@,
        final(lister).found@ == old(lister).found@,
{
    reveal_strlit(".etag");
    assert(slashed(path@) =~= key);
    if name@.len() > 5 {
        let end = name@.skip(name@.len() - 5);
        if is_named_as_etag(name@) {
            assert(end =~= ".etag"@);
        }
        if end == ".etag"@ {
            assert(end[0] == name@[name@.len() - 5] && end[1] == name@[name@.len() - 4]);
            assert(end[2] == name@[name@.len() - 3] && end[3] == name@[name@.len() - 2]);
            assert(end[4] == name@[name@.len() - 1]);
        }
    }
}

/// What was inspected is found: its key, its size, its etag or an empty one, and
/// the time; what was found before stays.
pub proof fn law_inspected_files_are_found(
    lister: &mut Lister,
    size: u64,
    etag: Option<String>,
    now: NaiveDateTime,
    action: ListAction,
)
    requires
        old(lister).inspecting is Some,
        call_ensures(Lister::step_at, (lister, ListEvent::Inspected { size, etag }, now), action),
    ensures
        action is NextEntry,
        final(lister).found@.len() == old(lister).found@.len() + 1,
        final(lister).found@.drop_last() == old(lister).found@,
        final(lister).found@.last().key@ == old(lister).inspecting->0@,
        final(lister).found@.last().size == size,
        etag matches Some(e) ==> final(lister).found@.last().etag@ == e@,
        etag is None ==> final(lister).found@.last().etag@.len() == 0,
        final(lister).found@.last().last_modified == now,
        final(lister).inspecting is None,
        final(lister).pending@ == old(lister).pending@,
        final(lister).prefix@ == old(lister).prefix@,
        final(lister).beside == old(lister).beside,
{
    let meta = final(lister).found@.last();
    assert(meta@.key == meta.key@ && meta@.etag == meta.etag@);
}

/// A directory that comes is read later; beside the directory that the prefix names
/// only where its path begins with the prefix and goes on behind it.
pub proof fn law_directories_that_are_read(
    lister: &mut Lister,
    dir: usize,
    path: String,
    now: NaiveDateTime,
    action: ListAction,
    slashes: Seq<char>,
)
    requires
        call_ensures(Lister::step_at, (lister, ListEvent::Directory { dir, path }, now), action),
        slashes.len() == path@.len(),
        forall|i: int| #![trigger slashes[i]]
            0 <= i < slashes.len() ==> slashes[i] == if path@[i] == '\\' {
                '/'
            } else {
                path@[i]
            },
    ensures
        action is NextEntry,
        ({
            let prefix = old(lister).prefix@;
            let read = !old(lister).beside || prefix.len() < slashes.len() && slashes.take(
                prefix.len() as int,
            ) == prefix;
            &&& read ==> final(lister).pending@ == old(lister).pending@.push(Directory::Found(dir))
            &&& !read ==> final(lister).pending@ == old(lister).pending@
        }),
        final(lister).found@ == old(lister).found@,
        final(lister).inspecting == old(lister).inspecting,
        final(lister).prefix@ == old(lister).prefix@,
        final(lister).beside == old(lister).beside,
{
    assert(slashed(path@) =~= slashes);
}

/// At the end of a directory the one that was found last is opened; when there is
/// none left, everything that was found is returned, and nothing else, in the
/// order of the keys.
pub proof fn law_end_of_a_directory(
    lister: &mut Lister,
    now: NaiveDateTime,
    action: ListAction,
)
    requires
        call_ensures(Lister::step_at, (lister, ListEvent::EndOfDirectory, now), action),
    ensures
        old(lister).pending@.len() > 0 ==> {
            &&& action == ListAction::OpenDirectory(old(lister).pending@.last())
            &&& final(lister).pending@ == old(lister).pending@.drop_last()
            &&& final(lister).found@ == old(lister).found@
            &&& final(lister).prefix@ == old(lister).prefix@
            &&& final(lister).beside <==> old(lister).beside || old(lister).pending@.last()
                == Directory::Beside
        },
        old(lister).pending@.len() == 0 ==> (action matches ListAction::Done(Ok(list)) && {
            &&& list@.len() == old(lister).found@.len()
            &&& forall|m: ObjectMeta| #[trigger]
                list@.contains(m) <==> old(lister).found@.contains(m)
            &&& forall|i: int, j: int| #![trigger list@[i], list@[j]]
                0 <= i < j < list@.len() ==> !comes_before(
                    encode_utf8(list@[j].key@),
                    encode_utf8(list@[i].key@),
                )
        }),
{
    if old(lister).pending@.len() == 0 {
        let list = action->Done_0->Ok_0@;
        law_sorted_items(old(lister).found@, list, Seq::empty());
        assert forall|i: int, j: int| #![trigger list[i], list[j]]
            0 <= i < j < list.len() implies !comes_before(
            encode_utf8(list[j].key@),
            encode_utf8(list[i].key@),
        ) by {
            assert(list[i].sort_key() == list[i].key@ && list[j].sort_key() == list[j].key@);
        }
    }
}

/// A directory that has disappeared ends the listing with what was found; any other
/// failure is the answer, with its message.
pub proof fn law_failures_of_a_listing(
    lister: &mut Lister,
    failure: ReadFailure,
    now: NaiveDateTime,
    action: ListAction,
    other: &mut Lister,
    message: String,
    failed: ListAction,
    third: &mut Lister,
    opened: ListAction,
)
    requires
        call_ensures(Lister::step_at, (lister, ListEvent::OpenFailed(failure), now), action),
        call_ensures(Lister::step_at, (other, ListEvent::Failed(message), now), failed),
        call_ensures(Lister::step_at, (third, ListEvent::Opened, now), opened),
    ensures
        failure.not_found ==> (action matches ListAction::Done(Ok(list)) && list@ == old(
            lister).found@),
        !failure.not_found ==> (action matches ListAction::Done(Err(StorageError::Backend(m)))
            && m@ == failure.message@),
        failed matches ListAction::Done(Err(StorageError::Backend(m))) && m@ == message@,
        opened is NextEntry,
        final(third).pending@ == old(third).pending@,
        final(third).found@ == old(third).found@,
        final(third).inspecting == old(third).inspecting,
        final(third).prefix@ == old(third).prefix@,
        final(third).beside == old(third).beside,
{
}

} // verus!
