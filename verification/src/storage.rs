//! Object storage: the interface of a backend, its errors, and the document
//! that commits a set of objects.

use crate::outside::bytes_content;
use crate::sorting::{ascending, distinct_keys, Keyed};
use crate::text::{
    begins_with, lemma_bytes_antisymmetric, lemma_utf8_injective, text_at_most,
};
use bytes::Bytes;
use chrono::NaiveDateTime;
use vstd::prelude::*;
use vstd::string::*;
use vstd::utf8::*;

verus! {

/// What is known of a stored object without its data.
#[derive(Debug)]
pub struct ObjectMeta {
    pub key: String,
    pub size: u64,
    pub etag: String,
    /// In UTC.
    pub last_modified: NaiveDateTime,
}

/// An [`ObjectMeta`] with its texts as character sequences.
pub struct ObjectMetaView {
    pub key: Seq<char>,
    pub size: u64,
    pub etag: Seq<char>,
    pub last_modified: NaiveDateTime,
}

impl View for ObjectMeta {
    type V = ObjectMetaView;

    open spec fn view(&self) -> ObjectMetaView {
        ObjectMetaView {
            key: self.key@,
            size: self.size,
            etag: self.etag@,
            last_modified: self.last_modified,
        }
    }
}

impl Clone for ObjectMeta {
    fn clone(&self) -> (meta: Self)
        ensures
            meta@ == self@,
    {
        ObjectMeta {
            key: self.key.clone(),
            size: self.size,
            etag: self.etag.clone(),
            last_modified: self.last_modified,
        }
    }
}

impl Keyed for ObjectMeta {
    open spec fn sort_key(&self) -> Seq<char> {
        self.key@
    }

    fn sort_text(&self) -> (text: &str) {
        self.key.as_str()
    }
}

/// Why a storage operation failed.
#[derive(Debug)]
pub enum StorageError {
    NotFound(String),
    EtagMismatch { key: String, expected: String, got: String },
    Backend(String),
}

/// A [`StorageError`] with its texts as character sequences.
pub enum StorageErrorView {
    NotFound(Seq<char>),
    EtagMismatch { key: Seq<char>, expected: Seq<char>, got: Seq<char> },
    Backend(Seq<char>),
}

impl View for StorageError {
    type V = StorageErrorView;

    open spec fn view(&self) -> StorageErrorView {
        match self {
            StorageError::NotFound(key) => StorageErrorView::NotFound(key@),
            StorageError::EtagMismatch { key, expected, got } => StorageErrorView::EtagMismatch {
                key: key@,
                expected: expected@,
                got: got@,
            },
            StorageError::Backend(m) => StorageErrorView::Backend(m@),
        }
    }
}

impl StorageErrorView {
    /// The message of the error.
    pub open spec fn message(self) -> Seq<char> {
        match self {
            StorageErrorView::NotFound(key) => "not found: "@ + key,
            StorageErrorView::EtagMismatch { key, expected, got } => "etag mismatch on "@ + key
                + ": expected "@ + expected + ", got "@ + got,
            StorageErrorView::Backend(m) => "backend error: "@ + m,
        }
    }
}

impl StorageError {
    /// The message of the error.
    pub fn message(&self) -> (text: String)
        ensures
            text@ == self@.message(),
    {
        match self {
            StorageError::NotFound(key) => {
                let mut text = "not found: ".to_string();
                text.append(key.as_str());
                text
            },
            StorageError::EtagMismatch { key, expected, got } => {
                let mut text = "etag mismatch on ".to_string();
                text.append(key.as_str());
                text.append(": expected ");
                text.append(expected.as_str());
                text.append(", got ");
                text.append(got.as_str());
                text
            },
            StorageError::Backend(m) => {
                let mut text = "backend error: ".to_string();
                text.append(m.as_str());
                text
            },
        }
    }
}

/// What a storage operation gives.
pub type StorageResult<T> = Result<T, StorageError>;

/// A stored object.
pub struct ObjectView {
    pub data: Seq<u8>,
    pub etag: Seq<char>,
    pub last_modified: NaiveDateTime,
}

/// What is known of the object under `key` without its data.
pub open spec fn meta_of(key: Seq<char>, object: ObjectView) -> ObjectMetaView {
    ObjectMetaView {
        key,
        size: object.data.len() as u64,
        etag: object.etag,
        last_modified: object.last_modified,
    }
}

/// The object that the description says was written with `data`.
pub open spec fn described(meta: ObjectMetaView, data: Seq<u8>) -> ObjectView {
    ObjectView { data, etag: meta.etag, last_modified: meta.last_modified }
}

/// The list names exactly the objects whose keys begin with `prefix`, each
/// once, in ascending order of their keys.
pub open spec fn lists(
    list: Seq<ObjectMeta>,
    objects: Map<Seq<char>, ObjectView>,
    prefix: Seq<char>,
) -> bool {
    &&& ascending(list)
    &&& distinct_keys(list)
    &&& forall|i: int| #![trigger list[i]]
        0 <= i < list.len() ==> {
            &&& objects.contains_key(list[i].key@)
            &&& begins_with(list[i].key@, prefix)
            &&& list[i]@ == meta_of(list[i].key@, objects[list[i].key@])
        }
    &&& forall|key: Seq<char>| #[trigger]
        objects.contains_key(key) && begins_with(key, prefix) ==> exists|i: int|
            0 <= i < list.len() && (#[trigger] list[i]).key@ == key
}

/// The backend failed.
pub open spec fn is_backend_error<T>(result: StorageResult<T>) -> bool {
    result matches Err(e) && e@ is Backend
}

/// An object store with atomic writes of single objects and writes on
/// condition. A backend may fail at any time; whatever else it answers is
/// about the objects it holds.
pub trait Storage {
    /// The objects that are stored.
    spec fn objects(&self) -> Map<Seq<char>, ObjectView>;

    /// The store is in a state to work with.
    spec fn ready(&self) -> bool;

    /// The backend never fails.
    spec fn reliable(&self) -> bool;

    /// The data under `key`.
    fn get(&self, key: &str) -> (result: StorageResult<Bytes>)
        requires
            self.ready(),
        ensures
            self.reliable() ==> !is_backend_error(result),
            match result {
                Ok(data) => self.objects().contains_key(key@) && bytes_content(data)
                    == self.objects()[key@].data,
                Err(e) => e@ is Backend || (!self.objects().contains_key(key@) && e@
                    == StorageErrorView::NotFound(key@)),
            },
    ;

    /// The data under `key`, and its etag.
    fn get_with_etag(&self, key: &str) -> (result: StorageResult<(Bytes, String)>)
        requires
            self.ready(),
        ensures
            self.reliable() ==> !is_backend_error(result),
            match result {
                Ok(found) => {
                    &&& self.objects().contains_key(key@)
                    &&& bytes_content(found.0) == self.objects()[key@].data
                    &&& found.1@ == self.objects()[key@].etag
                },
                Err(e) => e@ is Backend || (!self.objects().contains_key(key@) && e@
                    == StorageErrorView::NotFound(key@)),
            },
    ;

    /// Stores `data` under `key`.
    fn put(&mut self, key: &str, data: Bytes) -> (result: StorageResult<ObjectMeta>)
        requires
            old(self).ready(),
        ensures
            final(self).ready(),
            final(self).reliable() == old(self).reliable(),
            old(self).reliable() ==> !is_backend_error(result),
            match result {
                Ok(meta) => {
                    &&& final(self).objects() == old(self).objects().insert(
                        key@,
                        described(meta@, bytes_content(data)),
                    )
                    &&& meta@ == meta_of(key@, described(meta@, bytes_content(data)))
                },
                Err(e) => e@ is Backend && final(self).objects() == old(self).objects(),
            },
    ;

    /// Stores `data` under `key` if the etag there is `if_match`.
    fn put_if_match(&mut self, key: &str, data: Bytes, if_match: &str) -> (result: StorageResult<
        ObjectMeta,
    >)
        requires
            old(self).ready(),
        ensures
            final(self).ready(),
            final(self).reliable() == old(self).reliable(),
            old(self).reliable() ==> !is_backend_error(result),
            match result {
                Ok(meta) => {
                    &&& old(self).objects().contains_key(key@)
                    &&& old(self).objects()[key@].etag == if_match@
                    &&& final(self).objects() == old(self).objects().insert(
                        key@,
                        described(meta@, bytes_content(data)),
                    )
                    &&& meta@ == meta_of(key@, described(meta@, bytes_content(data)))
                },
                Err(e) => {
                    &&& final(self).objects() == old(self).objects()
                    &&& e@ is Backend || if old(self).objects().contains_key(key@) {
                        &&& old(self).objects()[key@].etag != if_match@
                        &&& e@ == (StorageErrorView::EtagMismatch {
                            key: key@,
                            expected: if_match@,
                            got: old(self).objects()[key@].etag,
                        })
                    } else {
                        e@ is NotFound || e@ is EtagMismatch
                    }
                },
            },
    ;

    /// Stores `data` under `key` if nothing is there.
    fn put_if_absent(&mut self, key: &str, data: Bytes) -> (result: StorageResult<ObjectMeta>)
        requires
            old(self).ready(),
        ensures
            final(self).ready(),
            final(self).reliable() == old(self).reliable(),
            old(self).reliable() ==> !is_backend_error(result),
            match result {
                Ok(meta) => {
                    &&& !old(self).objects().contains_key(key@)
                    &&& final(self).objects() == old(self).objects().insert(
                        key@,
                        described(meta@, bytes_content(data)),
                    )
                    &&& meta@ == meta_of(key@, described(meta@, bytes_content(data)))
                },
                Err(e) => {
                    &&& final(self).objects() == old(self).objects()
                    &&& e@ is Backend || (old(self).objects().contains_key(key@) && e@
                        == already_there(key@))
                },
            },
    ;

    /// Describes the objects whose keys begin with `prefix`.
    fn list(&self, prefix: &str) -> (result: StorageResult<Vec<ObjectMeta>>)
        requires
            self.ready(),
        ensures
            self.reliable() ==> !is_backend_error(result),
            match result {
                Ok(list) => lists(list@, self.objects(), prefix@),
                Err(e) => e@ is Backend,
            },
    ;

    /// Drops the object under `key`, if there is one.
    fn delete(&mut self, key: &str) -> (result: StorageResult<()>)
        requires
            old(self).ready(),
        ensures
            final(self).ready(),
            final(self).reliable() == old(self).reliable(),
            old(self).reliable() ==> !is_backend_error(result),
            match result {
                Ok(()) => final(self).objects() == old(self).objects().remove(key@),
                Err(e) => e@ is Backend && final(self).objects() == old(self).objects(),
            },
    ;
}

/// The error for a key that should have been free.
pub open spec fn already_there(key: Seq<char>) -> StorageErrorView {
    StorageErrorView::EtagMismatch { key, expected: "(absent)"@, got: "(present)"@ }
}

/// The committed-state document. Storing it switches the live pointer at one
/// stroke.
#[derive(Debug)]
pub struct Manifest {
    pub version: u32,
    /// In UTC.
    pub committed_at: NaiveDateTime,
    pub request_id: String,
    pub data_objects: Vec<String>,
    pub metadata: serde_json::Value,
}

impl Clone for Manifest {
    fn clone(&self) -> (manifest: Self)
        ensures
            manifest.version == self.version,
            manifest.committed_at == self.committed_at,
            manifest.request_id@ == self.request_id@,
            text_views(manifest.data_objects@) == text_views(self.data_objects@),
            manifest.metadata == self.metadata,
    {
        Manifest {
            version: self.version,
            committed_at: self.committed_at,
            request_id: self.request_id.clone(),
            data_objects: clone_texts(&self.data_objects),
            metadata: self.metadata.clone(),
        }
    }
}

/// The characters of each text.
pub open spec fn text_views(texts: Seq<String>) -> Seq<Seq<char>> {
    texts.map_values(|t: String| t@)
}

fn clone_texts(texts: &Vec<String>) -> (copies: Vec<String>)
    ensures
        text_views(copies@) == text_views(texts@),
{
    let mut copies: Vec<String> = Vec::new();
    let mut i: usize = 0;
    while i < texts.len()
        invariant
            i <= texts.len(),
            text_views(copies@) == text_views(texts@).take(i as int),
        decreases texts.len() - i,
    {
        let ghost before = text_views(copies@);
        copies.push(texts[i].clone());
        assert(text_views(copies@) =~= before.push(texts@[i as int]@));
        assert(text_views(copies@) =~= text_views(texts@).take(i + 1));
        i += 1;
    }
    assert(text_views(copies@) =~= text_views(texts@));
    copies
}

impl Manifest {
    /// The version that is written today.
    pub const CURRENT_VERSION: u32 = 1;
}

/// Without its first object, a list is a list of the other objects.
proof fn lemma_rest_lists(
    list: Seq<ObjectMeta>,
    objects: Map<Seq<char>, ObjectView>,
    prefix: Seq<char>,
)
    requires
        lists(list, objects, prefix),
        list.len() > 0,
    ensures
        lists(list.drop_first(), objects.remove(list[0].key@), prefix),
{
    let rest = list.drop_first();
    let others = objects.remove(list[0].key@);
    assert forall|i: int, j: int| #![trigger rest[i], rest[j]] 0 <= i < j < rest.len() implies {
        &&& text_at_most(rest[i].sort_key(), rest[j].sort_key())
        &&& rest[i].sort_key() != rest[j].sort_key()
    } by {
        assert(rest[i] == list[i + 1] && rest[j] == list[j + 1]);
    }
    assert forall|i: int| #![trigger rest[i]] 0 <= i < rest.len() implies {
        &&& others.contains_key(rest[i].key@)
        &&& begins_with(rest[i].key@, prefix)
        &&& rest[i]@ == meta_of(rest[i].key@, others[rest[i].key@])
    } by {
        assert(rest[i] == list[i + 1]);
        assert(list[0].sort_key() != list[i + 1].sort_key());
    }
    assert forall|key: Seq<char>| #[trigger]
        others.contains_key(key) && begins_with(key, prefix) implies exists|i: int|
        0 <= i < rest.len() && (#[trigger] rest[i]).key@ == key by {
        assert(objects.contains_key(key));
        let i = choose|i: int| 0 <= i < list.len() && (#[trigger] list[i]).key@ == key;
        assert(rest[i - 1] == list[i]);
    }
}

/// A listing leaves no choice: the same objects and the same prefix give the
/// same list.
pub proof fn law_listing_is_determined(
    a: Seq<ObjectMeta>,
    b: Seq<ObjectMeta>,
    objects: Map<Seq<char>, ObjectView>,
    prefix: Seq<char>,
)
    requires
        lists(a, objects, prefix),
        lists(b, objects, prefix),
    ensures
        a.map_values(|m: ObjectMeta| m@) == b.map_values(|m: ObjectMeta| m@),
    decreases a.len(),
{
    if a.len() == 0 {
        if b.len() > 0 {
            assert(objects.contains_key(b[0].key@) && begins_with(b[0].key@, prefix));
        }
        assert(a.map_values(|m: ObjectMeta| m@) =~= b.map_values(|m: ObjectMeta| m@));
    } else {
        let k = a[0].key@;
        assert(objects.contains_key(k) && begins_with(k, prefix));
        let j = choose|j: int| 0 <= j < b.len() && (#[trigger] b[j]).key@ == k;
        let l = b[0].key@;
        assert(objects.contains_key(l) && begins_with(l, prefix));
        let i = choose|i: int| 0 <= i < a.len() && (#[trigger] a[i]).key@ == l;
        if i > 0 && j > 0 {
            assert(text_at_most(a[0].sort_key(), a[i].sort_key()));
            assert(text_at_most(b[0].sort_key(), b[j].sort_key()));
            lemma_bytes_antisymmetric(encode_utf8(k), encode_utf8(l));
            lemma_utf8_injective(k, l);
        }
        assert(k == l);
        lemma_rest_lists(a, objects, prefix);
        lemma_rest_lists(b, objects, prefix);
        law_listing_is_determined(a.drop_first(), b.drop_first(), objects.remove(k), prefix);
        let x = a.drop_first().map_values(|m: ObjectMeta| m@);
        let y = b.drop_first().map_values(|m: ObjectMeta| m@);
        assert(a.map_values(|m: ObjectMeta| m@) =~= seq![a[0]@] + x);
        assert(b.map_values(|m: ObjectMeta| m@) =~= seq![b[0]@] + y);
    }
}

/// The message of a storage error names what it is about.
pub proof fn law_storage_messages(e: &StorageError, text: String)
    requires
        call_ensures(StorageError::message, (e,), text),
    ensures
        match *e {
            StorageError::NotFound(key) => text@ == "not found: "@ + key@,
            StorageError::EtagMismatch { key, expected, got } => text@ == "etag mismatch on "@ + key@
                + ": expected "@ + expected@ + ", got "@ + got@,
            StorageError::Backend(m) => text@ == "backend error: "@ + m@,
        },
{
}

/// What a storage error or a description is seen as holds all of it.
pub proof fn law_storage_views(e: StorageError, meta: ObjectMeta)
    ensures
        match e {
            StorageError::NotFound(key) => e@ == StorageErrorView::NotFound(key@),
            StorageError::EtagMismatch { key, expected, got } => e@ == (
            StorageErrorView::EtagMismatch { key: key@, expected: expected@, got: got@ }),
            StorageError::Backend(m) => e@ == StorageErrorView::Backend(m@),
        },
        meta@.key == meta.key@,
        meta@.size == meta.size,
        meta@.etag == meta.etag@,
        meta@.last_modified == meta.last_modified,
{
}

/// The description of an object says its key, the number of its bytes, its etag
/// and its time; and the object that a description is of has that etag and that
/// time.
pub proof fn law_descriptions(key: Seq<char>, object: ObjectView, meta: ObjectMetaView, data: Seq<u8>)
    ensures
        meta_of(key, object).key == key,
        object.data.len() <= u64::MAX ==> meta_of(key, object).size == object.data.len(),
        meta_of(key, object).etag == object.etag,
        meta_of(key, object).last_modified == object.last_modified,
        described(meta, data).data == data,
        described(meta, data).etag == meta.etag,
        described(meta, data).last_modified == meta.last_modified,
{
}

/// Copies of a description and of a manifest hold the same.
pub proof fn law_copies_are_whole(
    meta: &ObjectMeta,
    m: ObjectMeta,
    manifest: &Manifest,
    copy: Manifest,
)
    requires
        call_ensures(<ObjectMeta as Clone>::clone, (meta,), m),
        call_ensures(<Manifest as Clone>::clone, (manifest,), copy),
    ensures
        m.key@ == meta.key@,
        m.size == meta.size,
        m.etag@ == meta.etag@,
        m.last_modified == meta.last_modified,
        copy.version == manifest.version,
        copy.committed_at == manifest.committed_at,
        copy.request_id@ == manifest.request_id@,
        copy.metadata == manifest.metadata,
        copy.data_objects@.len() == manifest.data_objects@.len(),
        forall|i: int| #![trigger copy.data_objects@[i]]
            0 <= i < copy.data_objects@.len() ==> copy.data_objects@[i]@
                == manifest.data_objects@[i]@,
{
    let a = text_views(copy.data_objects@);
    let b = text_views(manifest.data_objects@);
    assert(a.len() == copy.data_objects@.len() && b.len() == manifest.data_objects@.len());
    assert forall|i: int| #![trigger copy.data_objects@[i]]
        0 <= i < copy.data_objects@.len() implies copy.data_objects@[i]@
        == manifest.data_objects@[i]@ by {
        assert(a[i] == copy.data_objects@[i]@ && b[i] == manifest.data_objects@[i]@);
    }
}

} // verus!
