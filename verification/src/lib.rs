//! A persistence adapter: versioned, namespaced key-value storage on top of
//! an embedded ordered byte-keyed engine. Keys are built from a label, an
//! application key, and a format version; values and lists are wrapped in a
//! self-describing byte encoding before they are physically stored.
//!
//! The list operations are unguarded read-modify-write cycles, so the store
//! offers no isolation of its own: mutating operations take the store
//! exclusively (`&mut self`), making "one writer at a time" the caller's
//! obligation, explicit in the receiver type.

pub mod codec;
pub mod helpers;

use vstd::prelude::*;

use crate::codec::dec_bytes;
use crate::codec::dec_list;
use crate::codec::decode_list;
use crate::codec::decode_value;
use crate::codec::enc_bytes;
use crate::codec::enc_list;
use crate::codec::encode_list;
use crate::codec::encode_value;
use crate::codec::remove_first;
use crate::codec::remove_first_match;

verus! {

#[verifier::external_type_specification]
#[verifier::external_body]
pub struct ExDb(sled::Db);

#[verifier::external_type_specification]
#[verifier::external_body]
pub struct ExSledError(sled::Error);

#[verifier::external_type_specification]
#[verifier::external_body]
pub struct ExSerdeJsonError(serde_json::Error);

/// Relies on sled::Error's Clone implementation, needed by the derived
/// Clone of the error enum below; nothing is assumed of the copy.
pub assume_specification[ <sled::Error as Clone>::clone ](e: &sled::Error) -> sled::Error;

/// Errors thrown by the key store.
#[derive(Debug, Clone, PartialEq, Eq)]
pub enum SledStorageError {
    /// The underlying store reported a failure.
    SledError(sled::Error),
    /// Serialization failed on write, or deserialization failed on read.
    SerializationError,
    /// A value does not exist. Reserved for collaborators that must tell
    /// "explicitly missing" apart; the adapter itself reads an absent key
    /// as an empty result.
    NotFound,
}

impl From<serde_json::Error> for SledStorageError {
    fn from(_e: serde_json::Error) -> (r: Self) {
        SledStorageError::SerializationError
    }
}

impl vstd::std_specs::convert::FromSpecImpl<serde_json::Error> for SledStorageError {
    open spec fn obeys_from_spec() -> bool {
        true
    }

    open spec fn from_spec(_e: serde_json::Error) -> Self {
        SledStorageError::SerializationError
    }
}

impl From<sled::Error> for SledStorageError {
    fn from(e: sled::Error) -> (r: Self) {
        SledStorageError::SledError(e)
    }
}

impl vstd::std_specs::convert::FromSpecImpl<sled::Error> for SledStorageError {
    open spec fn obeys_from_spec() -> bool {
        true
    }

    open spec fn from_spec(e: sled::Error) -> Self {
        SledStorageError::SledError(e)
    }
}

/// The abstract contents of an open store handle: the bytes physically held
/// under each (namespace name, key) pair.
pub uninterp spec fn db_view(db: sled::Db) -> Map<(Seq<u8>, Seq<u8>), Seq<u8>>;

/// A namespaced key-value store backed by an embedded engine. Its view is
/// the map from (namespace name, key) to the physically stored bytes.
pub struct SledStorage {
    db: sled::Db,
}

impl View for SledStorage {
    type V = Map<(Seq<u8>, Seq<u8>), Seq<u8>>;

    closed spec fn view(&self) -> Map<(Seq<u8>, Seq<u8>), Seq<u8>> {
        db_view(self.db)
    }
}

impl SledStorage {
    /// Creates a new SledStorage instance from a given path, opening or
    /// creating a store rooted there.
    ///
    /// Relies on sled::open. What the path already holds on disk is unknown
    /// to this layer, so nothing is said of the contents of a fresh handle.
    #[verifier::external_body]
    pub fn new_from_path(path: &str) -> (r: Result<Self, SledStorageError>)
        ensures
            r matches Err(e) ==> e is SledError,
    {
        let db = sled::open(path)?;
        Ok(Self { db })
    }

    /// Creates a new SledStorage instance from an existing open database
    /// handle; this never fails. The handle is adopted as it stands, so its
    /// contents become the store's contents.
    pub fn new_from_db(db: sled::Db) -> (r: Result<Self, SledStorageError>)
        ensures
            r is Ok,
            r matches Ok(s) ==> s@ == db_view(db),
    {
        Ok(Self { db })
    }

    /// Relies on sled::Db::open_tree and sled::Tree::get: looks the key up
    /// in the named tree (created if absent) and returns its bytes, or
    /// nothing where the key is absent.
    #[verifier::external_body]
    fn db_get(&self, tree: &[u8], key: &[u8]) -> (r: Result<Option<Vec<u8>>, SledStorageError>)
        ensures
            r matches Ok(o) ==> {
                &&& o is Some <==> db_view(self.db).contains_key((tree@, key@))
                &&& (o matches Some(v) ==> v@ == db_view(self.db)[(tree@, key@)])
            },
            r matches Err(e) ==> e is SledError,
    {
        let t = self.db.open_tree(tree)?;
        match t.get(key) {
            Ok(Some(v)) => Ok(Some(v.to_vec())),
            Ok(None) => Ok(None),
            Err(e) => Err(SledStorageError::from(e)),
        }
    }

    /// Relies on sled::Db::open_tree and sled::Tree::insert: stores the bytes
    /// under the key in the named tree, replacing any previous value. Insert
    /// replaces one binding atomically, so whatever the outcome no other
    /// binding is touched.
    #[verifier::external_body]
    fn db_insert(&mut self, tree: &[u8], key: &[u8], value: Vec<u8>) -> (r: Result<
        (),
        SledStorageError,
    >)
        ensures
            r is Ok ==> db_view(final(self).db) == db_view(old(self).db).insert(
                (tree@, key@),
                value@,
            ),
            forall|t: Seq<u8>, k: Seq<u8>|
                #![trigger db_view(final(self).db).contains_key((t, k))]
                #![trigger db_view(old(self).db).contains_key((t, k))]
                t != tree@ || k != key@ ==> (db_view(final(self).db).contains_key((t, k))
                    <==> db_view(old(self).db).contains_key((t, k))),
            forall|t: Seq<u8>, k: Seq<u8>|
                (t != tree@ || k != key@) && #[trigger] db_view(final(self).db).contains_key(
                    (t, k),
                ) ==> db_view(final(self).db)[(t, k)] == db_view(old(self).db)[(t, k)],
            r matches Err(e) ==> e is SledError,
    {
        let t = self.db.open_tree(tree)?;
        match t.insert(key, value) {
            Ok(_) => Ok(()),
            Err(e) => Err(SledStorageError::from(e)),
        }
    }

    /// Relies on sled::Db::open_tree and sled::Tree::remove: removes the key
    /// from the named tree; an absent key stays absent. Remove replaces one
    /// binding atomically, so whatever the outcome no other binding is
    /// touched.
    #[verifier::external_body]
    fn db_remove(&mut self, tree: &[u8], key: &[u8]) -> (r: Result<(), SledStorageError>)
        ensures
            r is Ok ==> db_view(final(self).db) == db_view(old(self).db).remove((tree@, key@)),
            forall|t: Seq<u8>, k: Seq<u8>|
                #![trigger db_view(final(self).db).contains_key((t, k))]
                #![trigger db_view(old(self).db).contains_key((t, k))]
                t != tree@ || k != key@ ==> (db_view(final(self).db).contains_key((t, k))
                    <==> db_view(old(self).db).contains_key((t, k))),
            forall|t: Seq<u8>, k: Seq<u8>|
                (t != tree@ || k != key@) && #[trigger] db_view(final(self).db).contains_key(
                    (t, k),
                ) ==> db_view(final(self).db)[(t, k)] == db_view(old(self).db)[(t, k)],
            r matches Err(e) ==> e is SledError,
    {
        let t = self.db.open_tree(tree)?;
        match t.remove(key) {
            Ok(_) => Ok(()),
            Err(e) => Err(SledStorageError::from(e)),
        }
    }

    /// Relies on sled::Db::open_tree and sled::Tree::clear: on success every
    /// key of the named tree is gone and every other tree is untouched.
    #[verifier::external_body]
    fn db_clear_tree(&mut self, tree: &[u8]) -> (r: Result<(), SledStorageError>)
        ensures
            r is Ok ==> forall|t: Seq<u8>, k: Seq<u8>|
                #![trigger db_view(final(self).db).contains_key((t, k))]
                #![trigger db_view(old(self).db).contains_key((t, k))]
                db_view(final(self).db).contains_key((t, k)) <==> (db_view(
                    old(self).db,
                ).contains_key((t, k)) && t != tree@),
            r is Ok ==> forall|t: Seq<u8>, k: Seq<u8>|
                #[trigger] db_view(final(self).db).contains_key((t, k)) ==> db_view(
                    final(self).db,
                )[(t, k)] == db_view(old(self).db)[(t, k)],
            r matches Err(e) ==> e is SledError,
    {
        let t = self.db.open_tree(tree)?;
        match t.clear() {
            Ok(()) => Ok(()),
            Err(e) => Err(SledStorageError::from(e)),
        }
    }

    /// Relies on sled::Db::tree_names: every tree that holds a key is among
    /// the returned names.
    #[verifier::external_body]
    fn db_tree_names(&self) -> (r: Vec<Vec<u8>>)
        ensures
            forall|t: Seq<u8>, k: Seq<u8>| #[trigger]
                db_view(self.db).contains_key((t, k)) ==> exists|i: int|
                    0 <= i < r@.len() && (#[trigger] r@[i])@ == t,
    {
        self.db.tree_names().into_iter().map(|n| n.to_vec()).collect()
    }

    /// Relies on sled::Tree::clear on the default tree (reached through the
    /// database handle itself): it only removes keys, and only there.
    #[verifier::external_body]
    fn db_clear_default(&mut self) -> (r: Result<(), SledStorageError>)
        ensures
            r is Ok ==> forall|t: Seq<u8>, k: Seq<u8>|
                #[trigger] db_view(final(self).db).contains_key((t, k)) ==> db_view(
                    old(self).db,
                ).contains_key((t, k)) && db_view(final(self).db)[(t, k)] == db_view(
                    old(self).db,
                )[(t, k)],
            r matches Err(e) ==> e is SledError,
    {
        match self.db.clear() {
            Ok(()) => Ok(()),
            Err(e) => Err(SledStorageError::from(e)),
        }
    }

    /// Relies on sled::Tree::flush (reached through the database handle):
    /// it persists prior writes and leaves the stored contents as they are.
    #[verifier::external_body]
    fn db_flush(&self) -> (r: Result<(), SledStorageError>)
        ensures
            r matches Err(e) ==> e is SledError,
    {
        match self.db.flush() {
            Ok(_) => Ok(()),
            Err(e) => Err(SledStorageError::from(e)),
        }
    }

    /// Flushes the database, ensuring all pending writes are persisted to
    /// disk. Durability is the engine's affair; the stored contents are
    /// untouched either way.
    pub fn flush(&self) -> (r: Result<(), SledStorageError>)
        ensures
            r matches Err(e) ==> e is SledError,
    {
        self.db_flush()
    }

    /// Writes a value to the storage with the given tree and key: the value
    /// bytes are encoded once more and overwrite whatever was stored there
    /// (last write wins). The tree is created on first use; whatever the
    /// outcome, no other binding is touched.
    pub fn write(&mut self, tree: &[u8], key: &[u8], value: Vec<u8>) -> (r: Result<
        (),
        SledStorageError,
    >)
        ensures
            r is Ok ==> final(self)@ == old(self)@.insert((tree@, key@), enc_bytes(value@)),
            forall|t: Seq<u8>, k: Seq<u8>|
                #![trigger final(self)@.contains_key((t, k))]
                #![trigger old(self)@.contains_key((t, k))]
                t != tree@ || k != key@ ==> (final(self)@.contains_key((t, k)) <==> old(
                    self,
                )@.contains_key((t, k))),
            forall|t: Seq<u8>, k: Seq<u8>|
                (t != tree@ || k != key@) && #[trigger] final(self)@.contains_key((t, k))
                    ==> final(self)@[(t, k)] == old(self)@[(t, k)],
            r matches Err(e) ==> e is SledError,
    {
        let encoded = match encode_value(&value) {
            Ok(b) => b,
            Err(e) => return Err(e),
        };
        self.db_insert(tree, key, encoded)
    }

    /// Reads a value from the storage with the given tree and key. An absent
    /// key is no value, not an error; a present key is decoded back out of
    /// its stored wrapper, and a failed decode is always surfaced as the
    /// serialization error, never as an absent value.
    pub fn read(&self, tree: &[u8], key: &[u8]) -> (r: Result<Option<Vec<u8>>, SledStorageError>)
        ensures
            r matches Ok(o) ==> (o is Some <==> self@.contains_key((tree@, key@))),
            r matches Ok(o) ==> (o matches Some(out) ==> dec_bytes(self@[(tree@, key@)])
                == Some(out@)),
            forall|v: Seq<u8>|
                self@.contains_key((tree@, key@)) && self@[(tree@, key@)] == #[trigger] enc_bytes(
                    v,
                ) ==> (r matches Ok(o) ==> o matches Some(out) && out@ == v),
            self@.contains_key((tree@, key@)) && dec_bytes(self@[(tree@, key@)]) is None
                ==> r is Err,
            r matches Err(e) ==> e is SledError || e is SerializationError,
            r matches Err(e) && e is SerializationError ==> self@.contains_key((tree@, key@))
                && dec_bytes(self@[(tree@, key@)]) is None,
    {
        let got = match self.db_get(tree, key) {
            Ok(g) => g,
            Err(e) => return Err(e),
        };
        match got {
            None => Ok(None),
            Some(bytes) => match decode_value(bytes.as_slice()) {
                Ok(inner) => Ok(Some(inner)),
                Err(e) => Err(e),
            },
        }
    }

    /// Appends a value to the list stored at the given tree and key: the
    /// current list is read (empty where the key is absent), the value is
    /// pushed at its end, and the whole list is encoded and written back.
    /// Stored bytes that do not decode as a list fail the call before
    /// anything is written; whatever the outcome, no other binding is
    /// touched.
    pub fn append(&mut self, tree: &[u8], key: &[u8], value: Vec<u8>) -> (r: Result<
        (),
        SledStorageError,
    >)
        ensures
            !old(self)@.contains_key((tree@, key@)) && r is Ok ==> final(self)@ == old(
                self,
            )@.insert((tree@, key@), enc_list(seq![value@])),
            old(self)@.contains_key((tree@, key@)) && r is Ok ==> (dec_list(
                old(self)@[(tree@, key@)],
            ) matches Some(xs) && final(self)@ == old(self)@.insert(
                (tree@, key@),
                enc_list(xs.push(value@)),
            )),
            forall|xs: Seq<Seq<u8>>|
                old(self)@.contains_key((tree@, key@)) && old(self)@[(tree@, key@)]
                    == #[trigger] enc_list(xs) && r is Ok ==> final(self)@ == old(self)@.insert(
                    (tree@, key@),
                    enc_list(xs.push(value@)),
                ),
            old(self)@.contains_key((tree@, key@)) && dec_list(old(self)@[(tree@, key@)]) is None
                ==> r is Err,
            r matches Err(e) && e is SerializationError ==> old(self)@.contains_key((tree@, key@))
                && dec_list(old(self)@[(tree@, key@)]) is None && final(self)@ == old(self)@,
            forall|t: Seq<u8>, k: Seq<u8>|
                #![trigger final(self)@.contains_key((t, k))]
                #![trigger old(self)@.contains_key((t, k))]
                t != tree@ || k != key@ ==> (final(self)@.contains_key((t, k)) <==> old(
                    self,
                )@.contains_key((t, k))),
            forall|t: Seq<u8>, k: Seq<u8>|
                (t != tree@ || k != key@) && #[trigger] final(self)@.contains_key((t, k))
                    ==> final(self)@[(t, k)] == old(self)@[(t, k)],
            r matches Err(e) ==> e is SledError || e is SerializationError,
    {
        let got = match self.db_get(tree, key) {
            Ok(g) => g,
            Err(e) => return Err(e),
        };
        let mut list: Vec<Vec<u8>> = Vec::new();
        if let Some(bytes) = got {
            list = match decode_list(bytes.as_slice()) {
                Ok(l) => l,
                Err(e) => return Err(e),
            };
        }
        let ghost pre = list.deep_view();
        list.push(value);
        proof {
            assert(value.deep_view() =~= value@);
            assert(list.deep_view() =~= pre.push(value@));
            if !old(self)@.contains_key((tree@, key@)) {
                assert(pre =~= Seq::<Seq<u8>>::empty());
                assert(pre.push(value@) =~= seq![value@]);
            }
        }
        let encoded = match encode_list(&list) {
            Ok(b) => b,
            Err(e) => return Err(e),
        };
        self.db_insert(tree, key, encoded)
    }

    /// Reads the list of element byte blobs stored at the given tree and
    /// key, in insertion order. An absent key is an empty list, never an
    /// error; stored bytes that do not decode as a list always fail the
    /// whole call, never yielding a partial or empty result.
    pub fn read_list(&self, tree: &[u8], key: &[u8]) -> (r: Result<Vec<Vec<u8>>, SledStorageError>)
        ensures
            !self@.contains_key((tree@, key@)) ==> (r matches Ok(l) ==> l@.len() == 0),
            self@.contains_key((tree@, key@)) ==> (r matches Ok(l) ==> dec_list(
                self@[(tree@, key@)],
            ) == Some(l.deep_view())),
            forall|xs: Seq<Seq<u8>>|
                self@.contains_key((tree@, key@)) && self@[(tree@, key@)] == #[trigger] enc_list(
                    xs,
                ) ==> (r matches Ok(l) ==> l.deep_view() == xs),
            self@.contains_key((tree@, key@)) && dec_list(self@[(tree@, key@)]) is None
                ==> r is Err,
            r matches Err(e) ==> e is SledError || e is SerializationError,
            r matches Err(e) && e is SerializationError ==> self@.contains_key((tree@, key@))
                && dec_list(self@[(tree@, key@)]) is None,
    {
        let got = match self.db_get(tree, key) {
            Ok(g) => g,
            Err(e) => return Err(e),
        };
        match got {
            None => Ok(Vec::new()),
            Some(bytes) => match decode_list(bytes.as_slice()) {
                Ok(l) => Ok(l),
                Err(e) => Err(e),
            },
        }
    }

    /// Removes a specific item from the list stored at the given tree and
    /// key: the first element whose bytes equal the value exactly is taken
    /// out and the list is written back. An absent key, like an absent
    /// value, is a no-op success; stored bytes that do not decode as a list
    /// fail the call before anything is written; whatever the outcome, no
    /// other binding is touched.
    pub fn remove_item(&mut self, tree: &[u8], key: &[u8], value: Vec<u8>) -> (r: Result<
        (),
        SledStorageError,
    >)
        ensures
            !old(self)@.contains_key((tree@, key@)) && r is Ok ==> final(self)@ == old(self)@,
            old(self)@.contains_key((tree@, key@)) && r is Ok ==> (dec_list(
                old(self)@[(tree@, key@)],
            ) matches Some(xs) && final(self)@ == old(self)@.insert(
                (tree@, key@),
                enc_list(remove_first(xs, value@)),
            )),
            forall|xs: Seq<Seq<u8>>|
                old(self)@.contains_key((tree@, key@)) && old(self)@[(tree@, key@)]
                    == #[trigger] enc_list(xs) && r is Ok ==> final(self)@ == old(self)@.insert(
                    (tree@, key@),
                    enc_list(remove_first(xs, value@)),
                ),
            old(self)@.contains_key((tree@, key@)) && dec_list(old(self)@[(tree@, key@)]) is None
                ==> r is Err,
            r matches Err(e) && e is SerializationError ==> old(self)@.contains_key((tree@, key@))
                && dec_list(old(self)@[(tree@, key@)]) is None && final(self)@ == old(self)@,
            forall|t: Seq<u8>, k: Seq<u8>|
                #![trigger final(self)@.contains_key((t, k))]
                #![trigger old(self)@.contains_key((t, k))]
                t != tree@ || k != key@ ==> (final(self)@.contains_key((t, k)) <==> old(
                    self,
                )@.contains_key((t, k))),
            forall|t: Seq<u8>, k: Seq<u8>|
                (t != tree@ || k != key@) && #[trigger] final(self)@.contains_key((t, k))
                    ==> final(self)@[(t, k)] == old(self)@[(t, k)],
            r matches Err(e) ==> e is SledError || e is SerializationError,
    {
        let got = match self.db_get(tree, key) {
            Ok(g) => g,
            Err(e) => return Err(e),
        };
        let bytes = match got {
            Some(b) => b,
            None => return Ok(()),
        };
        let mut list = match decode_list(bytes.as_slice()) {
            Ok(l) => l,
            Err(e) => return Err(e),
        };
        remove_first_match(&mut list, &value);
        let encoded = match encode_list(&list) {
            Ok(b) => b,
            Err(e) => return Err(e),
        };
        self.db_insert(tree, key, encoded)
    }

    /// Deletes an entry from the storage with the given tree and key; an
    /// absent key is a no-op success. Whatever the outcome, no other binding
    /// is touched.
    pub fn delete(&mut self, tree: &[u8], key: &[u8]) -> (r: Result<(), SledStorageError>)
        ensures
            r is Ok ==> final(self)@ == old(self)@.remove((tree@, key@)),
            forall|t: Seq<u8>, k: Seq<u8>|
                #![trigger final(self)@.contains_key((t, k))]
                #![trigger old(self)@.contains_key((t, k))]
                t != tree@ || k != key@ ==> (final(self)@.contains_key((t, k)) <==> old(
                    self,
                )@.contains_key((t, k))),
            forall|t: Seq<u8>, k: Seq<u8>|
                (t != tree@ || k != key@) && #[trigger] final(self)@.contains_key((t, k))
                    ==> final(self)@[(t, k)] == old(self)@[(t, k)],
            r matches Err(e) ==> e is SledError,
    {
        self.db_remove(tree, key)
    }

    /// Deletes all data from the storage: every tree ever created is
    /// cleared, then the default tree, and the result is flushed. On success
    /// no key is left observable anywhere.
    pub fn delete_all_data(&mut self) -> (r: Result<(), SledStorageError>)
        ensures
            r is Ok ==> forall|t: Seq<u8>, k: Seq<u8>| !#[trigger] final(self)@.contains_key(
                (t, k),
            ),
            r matches Err(e) ==> e is SledError,
    {
        let names = self.db_tree_names();
        let mut i: usize = 0;
        while i < names.len()
            invariant
                i <= names.len(),
                forall|t: Seq<u8>, k: Seq<u8>| #[trigger]
                    db_view(self.db).contains_key((t, k)) ==> exists|j: int|
                        i <= j < names@.len() && (#[trigger] names@[j])@ == t,
            decreases names.len() - i,
        {
            let ghost prev = db_view(self.db);
            let name = &names[i];
            match self.db_clear_tree(name.as_slice()) {
                Ok(()) => (),
                Err(e) => return Err(e),
            };
            proof {
                assert(name@ == names@[i as int]@);
                assert(forall|t: Seq<u8>, k: Seq<u8>| #[trigger] db_view(self.db).contains_key(
                    (t, k),
                ) ==> prev.contains_key((t, k)) && t != names@[i as int]@);
            }
            i += 1;
        }
        proof {
            assert(forall|t: Seq<u8>, k: Seq<u8>| !#[trigger] db_view(self.db).contains_key(
                (t, k),
            ));
        }
        match self.db_clear_default() {
            Ok(()) => (),
            Err(e) => return Err(e),
        };
        proof {
            assert(forall|t: Seq<u8>, k: Seq<u8>| !#[trigger] db_view(self.db).contains_key(
                (t, k),
            ));
        }
        match self.db_flush() {
            Ok(()) => Ok(()),
            Err(e) => Err(e),
        }
    }
}

} // verus!
