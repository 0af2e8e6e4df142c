//! Object storage in memory, for tests, examples and development.

use crate::name_table::NameTable;
use crate::outside::{bytes_content, fresh_uuid, is_uuid_text, utc_now};
use crate::sorting::{
    distinct_keys, lemma_sorted_contains, lemma_sorted_distinct, sort_by_text, Keyed,
};
use crate::storage::{
    already_there, described, lists, meta_of, ObjectMeta, ObjectView, Storage, StorageError,
    StorageErrorView, StorageResult,
};
use crate::text::{
    begins_with, comes_before, lemma_order_is_lexicographic, text_begins_with, text_eq,
};
use bytes::Bytes;
use chrono::NaiveDateTime;
use vstd::prelude::*;
use vstd::string::*;
use vstd::utf8::*;

verus! {

struct Object {
    data: Bytes,
    etag: String,
    last_modified: NaiveDateTime,
}

impl View for Object {
    type V = ObjectView;

    closed spec fn view(&self) -> ObjectView {
        ObjectView {
            data: bytes_content(self.data),
            etag: self.etag@,
            last_modified: self.last_modified,
        }
    }
}

/// Objects in memory, and a count of the writes that succeeded.
pub struct MemoryStorage {
    objects: NameTable<Object>,
    writes: u64,
}

/// The objects, and the number of writes modulo 2^64.
pub struct MemoryView {
    pub objects: Map<Seq<char>, ObjectView>,
    pub writes: u64,
}

impl View for MemoryStorage {
    type V = MemoryView;

    closed spec fn view(&self) -> MemoryView {
        MemoryView {
            objects: self.objects@.map_values(|o: Object| o@),
            writes: self.writes,
        }
    }
}

impl MemoryView {
    /// After `object` was stored under `key`.
    pub open spec fn stored(self, key: Seq<char>, object: ObjectView) -> MemoryView {
        MemoryView {
            objects: self.objects.insert(key, object),
            writes: if self.writes == u64::MAX {
                0
            } else {
                (self.writes + 1) as u64
            },
        }
    }

    /// A write on the condition that the etag is `if_match` is carried out: there
    /// is an object under `key`, and its etag is that one.
    pub open spec fn matches(self, key: Seq<char>, if_match: Seq<char>) -> bool {
        self.objects.contains_key(key) && self.objects[key].etag == if_match
    }

    /// The error for a conditional write that is refused. Where there is no
    /// object, the etag that was found is shown as an empty one.
    pub open spec fn mismatch(self, key: Seq<char>, if_match: Seq<char>) -> StorageErrorView {
        StorageErrorView::EtagMismatch {
            key,
            expected: if_match,
            got: if self.objects.contains_key(key) {
                self.objects[key].etag
            } else {
                Seq::empty()
            },
        }
    }

    /// After `key` was deleted.
    pub open spec fn deleted(self, key: Seq<char>) -> MemoryView {
        MemoryView { objects: self.objects.remove(key), ..self }
    }
}

fn object_meta(key: &str, object: &Object) -> (meta: ObjectMeta)
    ensures
        meta@ == meta_of(key@, object@),
{
    ObjectMeta {
        key: key.to_string(),
        size: object.data.len() as u64,
        etag: object.etag.clone(),
        last_modified: object.last_modified,
    }
}

impl MemoryStorage {
    /// The table of objects is well formed.
    pub closed spec fn wf(&self) -> bool {
        self.objects.wf()
    }

    /// No objects.
    pub fn new() -> (s: Self)
        ensures
            s.wf(),
            s@.objects == Map::<Seq<char>, ObjectView>::empty(),
            s@.writes == 0,
    {
        let s = MemoryStorage { objects: NameTable::new(), writes: 0 };
        assert(s@.objects =~= Map::<Seq<char>, ObjectView>::empty());
        s
    }

    /// The number of writes that succeeded, modulo 2^64.
    pub fn writes_count(&self) -> (n: u64)
        ensures
            n == self@.writes,
    {
        self.writes
    }

    /// Stores `data` under `key` with the given etag and time.
    pub fn store(
        &mut self,
        key: &str,
        data: Bytes,
        etag: String,
        last_modified: NaiveDateTime,
    ) -> (meta: ObjectMeta)
        requires
            old(self).wf(),
        ensures
            final(self).wf(),
            ({
                let object = ObjectView { data: bytes_content(data), etag: etag@, last_modified };
                &&& meta@ == meta_of(key@, object)
                &&& final(self)@ == old(self)@.stored(key@, object)
            }),
    {
        let object = Object { data, etag, last_modified };
        let ghost view = object@;
        let meta = object_meta(key, &object);
        self.objects.insert(key.to_string(), object);
        self.writes = self.writes.wrapping_add(1);
        assert(self@.objects =~= old(self)@.stored(key@, view).objects);
        meta
    }

    /// Stores `data` under `key` with the given etag and time if the etag there
    /// is `if_match`.
    pub fn store_if_match(
        &mut self,
        key: &str,
        data: Bytes,
        if_match: &str,
        etag: String,
        now: NaiveDateTime,
    ) -> (result: StorageResult<ObjectMeta>)
        requires
            old(self).wf(),
        ensures
            final(self).wf(),
            ({
                let object = ObjectView {
                    data: bytes_content(data),
                    etag: etag@,
                    last_modified: now,
                };
                &&& final(self)@ == conditionally_stored(old(self)@, key@, if_match@, object)
                &&& if old(self)@.matches(key@, if_match@) {
                    result matches Ok(meta) && meta@ == meta_of(key@, object)
                } else {
                    result matches Err(e) && e@ == old(self)@.mismatch(key@, if_match@)
                }
            }),
    {
        let (found, got) = match self.objects.get(key) {
            Some(object) => (true, object.etag.clone()),
            None => {
                let none = String::new();
                assert(none@ =~= Seq::<char>::empty());
                (false, none)
            },
        };
        if !found || !text_eq(got.as_str(), if_match) {
            return Err(
                StorageError::EtagMismatch {
                    key: key.to_string(),
                    expected: if_match.to_string(),
                    got,
                },
            );
        }
        let meta = self.store(key, data, etag, now);
        Ok(meta)
    }
}

impl Default for MemoryStorage {
    fn default() -> (s: Self)
        ensures
            s.wf(),
            s@.objects == Map::<Seq<char>, ObjectView>::empty(),
            s@.writes == 0,
    {
        MemoryStorage::new()
    }
}

impl Storage for MemoryStorage {
    open spec fn objects(&self) -> Map<Seq<char>, ObjectView> {
        self@.objects
    }

    open spec fn ready(&self) -> bool {
        self.wf()
    }

    open spec fn reliable(&self) -> bool {
        true
    }

    fn get(&self, key: &str) -> (result: StorageResult<Bytes>)
        ensures
            result is Ok == self@.objects.contains_key(key@),
            result matches Err(e) ==> e@ == StorageErrorView::NotFound(key@),
    {
        match self.objects.get(key) {
            Some(object) => Ok(object.data.clone()),
            None => Err(StorageError::NotFound(key.to_string())),
        }
    }

    fn get_with_etag(&self, key: &str) -> (result: StorageResult<(Bytes, String)>)
        ensures
            result is Ok == self@.objects.contains_key(key@),
            result matches Err(e) ==> e@ == StorageErrorView::NotFound(key@),
    {
        match self.objects.get(key) {
            Some(object) => Ok((object.data.clone(), object.etag.clone())),
            None => Err(StorageError::NotFound(key.to_string())),
        }
    }

    fn put(&mut self, key: &str, data: Bytes) -> (result: StorageResult<ObjectMeta>)
        ensures
            result matches Ok(meta) && is_uuid_text(meta@.etag) && final(self)@ == old(
                self,
            )@.stored(key@, described(meta@, bytes_content(data))),
    {
        let meta = self.store(key, data, fresh_uuid(), utc_now());
        Ok(meta)
    }

    fn put_if_match(&mut self, key: &str, data: Bytes, if_match: &str) -> (result: StorageResult<
        ObjectMeta,
    >)
        ensures
            result is Ok == old(self)@.matches(key@, if_match@),
            match result {
                Ok(meta) => is_uuid_text(meta@.etag) && final(self)@ == old(self)@.stored(
                    key@,
                    described(meta@, bytes_content(data)),
                ),
                Err(e) => e@ == old(self)@.mismatch(key@, if_match@) && final(self)@ == old(self)@,
            },
    {
        self.store_if_match(key, data, if_match, fresh_uuid(), utc_now())
    }

    fn put_if_absent(&mut self, key: &str, data: Bytes) -> (result: StorageResult<ObjectMeta>)
        ensures
            result is Ok == !old(self)@.objects.contains_key(key@),
            match result {
                Ok(meta) => is_uuid_text(meta@.etag) && final(self)@ == old(self)@.stored(
                    key@,
                    described(meta@, bytes_content(data)),
                ),
                Err(e) => e@ == already_there(key@) && final(self)@ == old(self)@,
            },
    {
        if self.objects.get(key).is_some() {
            return Err(
                StorageError::EtagMismatch {
                    key: key.to_string(),
                    expected: "(absent)".to_string(),
                    got: "(present)".to_string(),
                },
            );
        }
        self.put(key, data)
    }

    fn list(&self, prefix: &str) -> (result: StorageResult<Vec<ObjectMeta>>)
        ensures
            result matches Ok(list) && lists(list@, self@.objects, prefix@),
    {
        let mut found: Vec<ObjectMeta> = Vec::new();
        let n: usize = self.objects.len();
        let ghost pairs = self.objects.pairs();
        proof {
            self.objects.lemma_pairs();
        }
        let mut i: usize = 0;
        while i < n
            invariant
                i <= n,
                self.wf(),
                pairs == self.objects.pairs(),
                n == pairs.len(),
                forall|a: int| #![trigger pairs[a]]
                    0 <= a < pairs.len() ==> {
                        &&& self@.objects.contains_key(pairs[a].0)
                        &&& self@.objects[pairs[a].0] == pairs[a].1@
                    },
                forall|a: int, b: int| #![trigger pairs[a], pairs[b]]
                    0 <= a < b < pairs.len() ==> pairs[a].0 != pairs[b].0,
                forall|m: int| #![trigger found@[m]]
                    0 <= m < found@.len() ==> {
                        &&& begins_with(found@[m].key@, prefix@)
                        &&& exists|a: int|
                            0 <= a < i && (#[trigger] pairs[a]).0 == found@[m].key@ && found@[m]@
                                == meta_of(pairs[a].0, pairs[a].1@)
                    },
                distinct_keys(found@),
                forall|a: int| #![trigger pairs[a]]
                    0 <= a < i && begins_with(pairs[a].0, prefix@) ==> exists|m: int|
                        0 <= m < found@.len() && (#[trigger] found@[m]).key@ == pairs[a].0,
            decreases n - i,
        {
            let (key, object) = self.objects.at(i);
            let ghost before = found@;
            assert((key@, *object) == pairs[i as int]);
            if text_begins_with(key, prefix) {
                let meta = object_meta(key, object);
                found.push(meta);
                assert(found@[before.len() as int].key@ == pairs[i as int].0);
                assert forall|m: int, p: int| #![trigger found@[m], found@[p]]
                    0 <= m < p < found@.len() implies found@[m].sort_key()
                    != found@[p].sort_key() by {
                    assert(found@[m] == before[m]);
                    if p < before.len() {
                        assert(found@[p] == before[p]);
                    }
                }
                assert forall|a: int| #![trigger pairs[a]]
                    0 <= a < i + 1 && begins_with(pairs[a].0, prefix@) implies exists|m: int|
                    0 <= m < found@.len() && (#[trigger] found@[m]).key@ == pairs[a].0 by {
                    if a < i {
                        let m = choose|m: int|
                            0 <= m < before.len() && (#[trigger] before[m]).key@ == pairs[a].0;
                        assert(found@[m] == before[m]);
                    }
                }
                assert forall|m: int| #![trigger found@[m]] 0 <= m < found@.len() implies {
                    &&& begins_with(found@[m].key@, prefix@)
                    &&& exists|a: int|
                        0 <= a < i + 1 && (#[trigger] pairs[a]).0 == found@[m].key@ && found@[m]@
                            == meta_of(pairs[a].0, pairs[a].1@)
                } by {
                    if m < before.len() {
                        assert(found@[m] == before[m]);
                    } else {
                        assert(pairs[i as int].0 == found@[m].key@);
                    }
                }
            }
            i += 1;
        }
        let ghost unsorted = found@;
        let list = sort_by_text(found);
        proof {
            lemma_sorted_distinct(unsorted, list@);
            assert forall|m: int| #![trigger list@[m]] 0 <= m < list@.len() implies {
                &&& self@.objects.contains_key(list@[m].key@)
                &&& begins_with(list@[m].key@, prefix@)
                &&& list@[m]@ == meta_of(list@[m].key@, self@.objects[list@[m].key@])
            } by {
                lemma_sorted_contains(unsorted, list@, list@[m]);
                let p = choose|p: int| 0 <= p < unsorted.len() && unsorted[p] == list@[m];
                assert(begins_with(unsorted[p].key@, prefix@));
            }
            assert forall|key: Seq<char>| #[trigger]
                self@.objects.contains_key(key) && begins_with(key, prefix@) implies exists|m: int|
                0 <= m < list@.len() && (#[trigger] list@[m]).key@ == key by {
                assert(self.objects@.contains_key(key));
                let a = choose|a: int|
                    0 <= a < pairs.len() && #[trigger] pairs[a] == (key, self.objects@[key]);
                let p = choose|p: int|
                    0 <= p < unsorted.len() && (#[trigger] unsorted[p]).key@ == pairs[a].0;
                lemma_sorted_contains(unsorted, list@, unsorted[p]);
                let m = choose|m: int| 0 <= m < list@.len() && list@[m] == unsorted[p];
                assert(list@[m].key@ == key);
            }
        }
        Ok(list)
    }

    fn delete(&mut self, key: &str) -> (result: StorageResult<()>)
        ensures
            result is Ok,
            final(self)@ == old(self)@.deleted(key@),
    {
        self.objects.remove(key);
        assert(self@.objects =~= old(self)@.deleted(key@).objects);
        Ok(())
    }
}

/// A write is what the next read sees, data and etag both, and no other object
/// changes.
pub proof fn law_read_your_write(
    state: MemoryView,
    key: Seq<char>,
    object: ObjectView,
    other: Seq<char>,
)
    requires
        other != key,
    ensures
        state.stored(key, object).objects.contains_key(key),
        state.stored(key, object).objects[key] == object,
        state.stored(key, object).objects.contains_key(other) == state.objects.contains_key(other),
        state.objects.contains_key(other) ==> state.stored(key, object).objects[other]
            == state.objects[other],
{
}

/// Of two writers that read the same etag, only the first gets through: once
/// the etag has changed, a write on the condition of the old one is refused.
pub proof fn law_stale_etag_is_refused(
    state: MemoryView,
    key: Seq<char>,
    read: Seq<char>,
    first: ObjectView,
)
    requires
        state.matches(key, read),
        first.etag != read,
    ensures
        !state.stored(key, first).matches(key, read),
{
}

/// The etag that a write returns is the one that a following conditional write
/// has to give.
pub proof fn law_returned_etag_matches(state: MemoryView, key: Seq<char>, object: ObjectView)
    ensures
        state.stored(key, object).matches(key, meta_of(key, object).etag),
{
}

/// A conditional write either stores its own object under its own key, or
/// changes nothing: what it makes of the state depends on the condition alone.
pub open spec fn conditionally_stored(
    state: MemoryView,
    key: Seq<char>,
    if_match: Seq<char>,
    object: ObjectView,
) -> MemoryView {
    if state.matches(key, if_match) {
        state.stored(key, object)
    } else {
        state
    }
}

/// A refused conditional write changes nothing.
pub proof fn law_refusal_changes_nothing(
    state: MemoryView,
    key: Seq<char>,
    if_match: Seq<char>,
    object: ObjectView,
)
    requires
        !state.matches(key, if_match),
    ensures
        conditionally_stored(state, key, if_match, object) == state,
{
}

/// A conditional write never creates an object.
pub proof fn law_conditional_write_creates_nothing(
    state: MemoryView,
    key: Seq<char>,
    if_match: Seq<char>,
    object: ObjectView,
)
    ensures
        conditionally_stored(state, key, if_match, object).objects.dom() == state.objects.dom(),
{
    assert(conditionally_stored(state, key, if_match, object).objects.dom()
        =~= state.objects.dom());
}

/// A deleted object is gone, and the others stay.
pub proof fn law_delete(state: MemoryView, key: Seq<char>, other: Seq<char>)
    requires
        other != key,
    ensures
        !state.deleted(key).objects.contains_key(key),
        state.deleted(key).objects.contains_key(other) == state.objects.contains_key(other),
        state.objects.contains_key(other) ==> state.deleted(key).objects[other]
            == state.objects[other],
        state.deleted(key).deleted(key) == state.deleted(key),
{
    assert(state.deleted(key).deleted(key).objects =~= state.deleted(key).objects);
}

/// What was stored is what is read, data and etag, and the description says the
/// same of it; objects under other keys are read as before.
pub proof fn law_stored_object_is_read(
    s: &mut MemoryStorage,
    key: &str,
    data: Bytes,
    etag: String,
    now: NaiveDateTime,
    meta: ObjectMeta,
    before: &MemoryStorage,
    after: &MemoryStorage,
    asked: &str,
    was: StorageResult<Bytes>,
    is: StorageResult<Bytes>,
    both: StorageResult<(Bytes, String)>,
)
    requires
        call_ensures(MemoryStorage::store, (s, key, data, etag, now), meta),
        *before == *old(s),
        call_ensures(<MemoryStorage as Storage>::get, (before, asked), was),
        call_ensures(<MemoryStorage as Storage>::get, (after, asked), is),
        call_ensures(<MemoryStorage as Storage>::get_with_etag, (after, asked), both),
    ensures
        meta.key@ == key@,
        meta.etag@ == etag@,
        meta.last_modified == now,
        bytes_content(data).len() <= u64::MAX ==> meta.size == bytes_content(data).len(),
        *after == *final(s) && asked@ == key@ ==> {
            &&& is matches Ok(d) && bytes_content(d) == bytes_content(data)
            &&& both matches Ok(p) && bytes_content(p.0) == bytes_content(data) && p.1@ == etag@
        },
        *after == *final(s) && asked@ != key@ ==> match (was, is) {
            (Ok(a), Ok(b)) => bytes_content(a) == bytes_content(b),
            (Err(StorageError::NotFound(a)), Err(StorageError::NotFound(b))) => a@ == b@ && a@
                == asked@,
            _ => false,
        },
{
}

/// A write counts, and so does a conditional write that goes through; a refused
/// one and a deletion do not.
pub proof fn law_writes_are_counted(
    fresh: MemoryStorage,
    none: u64,
    s: &mut MemoryStorage,
    key: &str,
    data: Bytes,
    etag: String,
    now: NaiveDateTime,
    meta: ObjectMeta,
    c: &mut MemoryStorage,
    if_match: &str,
    result: StorageResult<ObjectMeta>,
    d: &mut MemoryStorage,
    deleted: StorageResult<()>,
    before: &MemoryStorage,
    n: u64,
    stored: &MemoryStorage,
    m: u64,
    conditional: &MemoryStorage,
    p: u64,
    without: &MemoryStorage,
    q: u64,
)
    requires
        call_ensures(MemoryStorage::new, (), fresh),
        call_ensures(MemoryStorage::writes_count, (&fresh,), none),
        call_ensures(MemoryStorage::store, (s, key, data, etag, now), meta),
        call_ensures(MemoryStorage::store_if_match, (c, key, data, if_match, etag, now), result),
        call_ensures(<MemoryStorage as Storage>::delete, (d, key), deleted),
        *before == *old(s),
        *old(c) == *old(s),
        *old(d) == *old(s),
        call_ensures(MemoryStorage::writes_count, (before,), n),
        call_ensures(MemoryStorage::writes_count, (stored,), m),
        call_ensures(MemoryStorage::writes_count, (conditional,), p),
        call_ensures(MemoryStorage::writes_count, (without,), q),
        n < u64::MAX,
    ensures
        none == 0,
        *stored == *final(s) ==> m == n + 1,
        *conditional == *final(c) ==> p == if result is Ok {
            n + 1
        } else {
            n as int
        },
        *without == *final(d) ==> q == n,
{
}

/// A conditional write goes through exactly where there is an object and its etag
/// is the one given, and then it is a write; otherwise it is refused with the etag
/// that is there, if any, and nothing changes.
pub proof fn law_conditional_write(
    s: &mut MemoryStorage,
    key: &str,
    data: Bytes,
    if_match: &str,
    etag: String,
    now: NaiveDateTime,
    result: StorageResult<ObjectMeta>,
    before: &MemoryStorage,
    current: StorageResult<(Bytes, String)>,
    plain: &mut MemoryStorage,
    meta: ObjectMeta,
)
    requires
        call_ensures(MemoryStorage::store_if_match, (s, key, data, if_match, etag, now), result),
        *before == *old(s),
        call_ensures(<MemoryStorage as Storage>::get_with_etag, (before, key), current),
        *old(plain) == *old(s),
        call_ensures(MemoryStorage::store, (plain, key, data, etag, now), meta),
    ensures
        result is Ok <==> (current matches Ok(p) && p.1@ == if_match@),
        result matches Ok(m) ==> m@ == meta@ && final(s)@ == final(plain)@,
        result matches Err(e) ==> final(s)@ == old(s)@ && (e matches StorageError::EtagMismatch {
            key: k,
            expected,
            got,
        } && k@ == key@ && expected@ == if_match@ && (current matches Ok(p) ==> got@ == p.1@) && (
        current is Err ==> got@.len() == 0)),
{
}

/// The three ways to put an object: unconditionally always, on the condition of an
/// etag only where that is the etag, on the condition of absence only where there
/// is none. What was put is there with the etag that is returned, and a refusal
/// changes nothing.
pub proof fn law_puts(
    s: &mut MemoryStorage,
    key: &str,
    data: Bytes,
    put: StorageResult<ObjectMeta>,
    c: &mut MemoryStorage,
    if_match: &str,
    matched: StorageResult<ObjectMeta>,
    a: &mut MemoryStorage,
    absent: StorageResult<ObjectMeta>,
    before: &MemoryStorage,
    current: StorageResult<(Bytes, String)>,
)
    requires
        call_ensures(<MemoryStorage as Storage>::put, (s, key, data), put),
        *old(c) == *old(s),
        call_ensures(<MemoryStorage as Storage>::put_if_match, (c, key, data, if_match), matched),
        *old(a) == *old(s),
        call_ensures(<MemoryStorage as Storage>::put_if_absent, (a, key, data), absent),
        *before == *old(s),
        call_ensures(<MemoryStorage as Storage>::get_with_etag, (before, key), current),
    ensures
        put matches Ok(m) && m.key@ == key@ && final(s)@.objects == old(s)@.objects.insert(
            key@,
            ObjectView {
                data: bytes_content(data),
                etag: m.etag@,
                last_modified: m.last_modified,
            },
        ),
        matched is Ok <==> (current matches Ok(p) && p.1@ == if_match@),
        matched matches Ok(m) ==> m.key@ == key@ && final(c)@.objects == old(c)@.objects.insert(
            key@,
            ObjectView {
                data: bytes_content(data),
                etag: m.etag@,
                last_modified: m.last_modified,
            },
        ),
        matched matches Err(e) ==> e is EtagMismatch && final(c)@ == old(c)@,
        absent is Ok <==> current is Err,
        absent matches Ok(m) ==> m.key@ == key@ && final(a)@.objects == old(a)@.objects.insert(
            key@,
            ObjectView {
                data: bytes_content(data),
                etag: m.etag@,
                last_modified: m.last_modified,
            },
        ),
        absent matches Err(e) ==> final(a)@ == old(a)@ && (e matches StorageError::EtagMismatch {
            key: k,
            expected,
            got,
        } && k@ == key@ && expected@ == "(absent)"@ && got@ == "(present)"@),
{
}

/// A deleted object is not found, and the others are found as before.
pub proof fn law_deleted_object_is_not_found(
    s: &mut MemoryStorage,
    key: &str,
    deleted: StorageResult<()>,
    before: &MemoryStorage,
    after: &MemoryStorage,
    asked: &str,
    was: StorageResult<Bytes>,
    is: StorageResult<Bytes>,
)
    requires
        call_ensures(<MemoryStorage as Storage>::delete, (s, key), deleted),
        *before == *old(s),
        call_ensures(<MemoryStorage as Storage>::get, (before, asked), was),
        call_ensures(<MemoryStorage as Storage>::get, (after, asked), is),
    ensures
        deleted is Ok,
        *after == *final(s) && asked@ == key@ ==> (is matches Err(StorageError::NotFound(k)) && k@
            == key@),
        *after == *final(s) && asked@ != key@ ==> match (was, is) {
            (Ok(a), Ok(b)) => bytes_content(a) == bytes_content(b),
            (Err(_), Err(_)) => true,
            _ => false,
        },
{
}

/// The list has exactly the objects whose keys begin with the prefix, each once
/// and with its own size, etag and time, in the order of the keys.
pub proof fn law_list_has_the_objects_with_the_prefix(
    s: &MemoryStorage,
    prefix: &str,
    result: StorageResult<Vec<ObjectMeta>>,
    key: &str,
    found: StorageResult<(Bytes, String)>,
)
    requires
        call_ensures(<MemoryStorage as Storage>::list, (s, prefix), result),
        call_ensures(<MemoryStorage as Storage>::get_with_etag, (s, key), found),
    ensures
        result matches Ok(list) && {
            &&& found is Ok && prefix@.len() <= key@.len() && key@.take(prefix@.len() as int)
                == prefix@ <==> exists|i: int|
                0 <= i < list@.len() && (#[trigger] list@[i]).key@ == key@
            &&& forall|i: int| #![trigger list@[i]]
                0 <= i < list@.len() && list@[i].key@ == key@ ==> (found matches Ok(p)
                    && list@[i].etag@ == p.1@ && (bytes_content(p.0).len() <= u64::MAX
                    ==> list@[i].size == bytes_content(p.0).len()))
            &&& forall|i: int, j: int| #![trigger list@[i], list@[j]]
                0 <= i < j < list@.len() ==> list@[i].key@ != list@[j].key@ && !comes_before(
                    encode_utf8(list@[j].key@),
                    encode_utf8(list@[i].key@),
                )
        },
{
    let list = result->Ok_0@;
    assert forall|i: int, j: int| #![trigger list[i], list[j]]
        0 <= i < j < list.len() implies list[i].key@ != list[j].key@ && !comes_before(
        encode_utf8(list[j].key@),
        encode_utf8(list[i].key@),
    ) by {
        assert(list[i].sort_key() == list[i].key@ && list[j].sort_key() == list[j].key@);
        lemma_order_is_lexicographic(encode_utf8(list[i].key@), encode_utf8(list[j].key@));
    }
    if found is Ok && begins_with(key@, prefix@) {
        assert(s@.objects.contains_key(key@));
    }
}

/// A new storage holds nothing.
pub proof fn law_new_storage_is_empty(s: MemoryStorage, key: &str, found: StorageResult<Bytes>)
    requires
        call_ensures(MemoryStorage::new, (), s),
        call_ensures(<MemoryStorage as Storage>::get, (&s, key), found),
    ensures
        found matches Err(StorageError::NotFound(k)) && k@ == key@,
{
}

} // verus!
