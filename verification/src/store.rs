use vstd::prelude::*;

use crate::codec::{decode_object, encode_object, frame, lemma_frame_decode};
use crate::digest::{id_of, object_id};
use crate::error::StoreError;
use crate::ids::{is_valid_id, object_path_for, validate_id};
use crate::kind::Kind;
use crate::zlib::{zlib_compress, zlib_decompress, zlib_of};

verus! {

/// A fully built object, ready to persist: the derived identifier, the
/// two path segments under the objects tree, and the compressed bytes
/// that belong at that path.
#[derive(Debug)]
pub struct BuiltObject {
    pub id: String,
    pub dir: String,
    pub file: String,
    pub bytes: Vec<u8>,
}

/// Builds the complete stored form of an object in one pass: frames the
/// payload, derives the identifier from the framed bytes, compresses
/// them, and splits the identifier into its path segments.
pub fn build_object(k: Kind, payload: &[u8]) -> (r: BuiltObject)
    ensures
        r.id@ == id_of(k, payload@),
        is_valid_id(r.id@),
        r.dir@ == id_of(k, payload@).subrange(0, 2),
        r.file@ == id_of(k, payload@).subrange(2, 40),
        r.bytes@ == zlib_of(frame(k, payload@)),
{
    let id = object_id(k, payload);
    let (dir, file) = match object_path_for(id.as_str()) {
        Ok(p) => p,
        Err(_) => vstd::pervasive::unreached(),
    };
    let framed = encode_object(k, payload);
    let bytes = zlib_compress(framed.as_slice());
    BuiltObject { id, dir, file, bytes }
}

/// Decodes one stored object file: decompresses the bytes, parses the
/// frame, and hands back the payload of a supported kind. A structurally
/// valid object of an unimplemented kind is `UnsupportedKind`.
pub fn decode_stored(data: &[u8]) -> (r: Result<Vec<u8>, StoreError>)
    ensures
        forall|k: Kind, p: Seq<u8>|
            data@ == zlib_of(frame(k, p)) && p.len() <= usize::MAX ==> if k is Blob {
                r is Ok && r->Ok_0@ == p
            } else {
                r == Err::<Vec<u8>, StoreError>(StoreError::UnsupportedKind)
            },
        r is Err ==> r->Err_0 != StoreError::ObjectNotFound && r->Err_0
            != StoreError::InvalidIdentifier,
{
    let framed = match zlib_decompress(data) {
        Ok(framed) => framed,
        Err(e) => {
            return Err(e);
        },
    };
    match decode_object(framed.as_slice()) {
        Ok((k, payload)) => {
            proof {
                assert forall|k2: Kind, p2: Seq<u8>|
                    data@ == zlib_of(frame(k2, p2)) && p2.len() <= usize::MAX implies k == k2
                    && payload@ == p2 by {
                    lemma_frame_decode(k2, p2);
                    assert(framed@ == frame(k2, p2));
                }
            }
            if k.supported() {
                Ok(payload)
            } else {
                Err(StoreError::UnsupportedKind)
            }
        },
        Err(e) => {
            proof {
                assert forall|k2: Kind, p2: Seq<u8>|
                    data@ == zlib_of(frame(k2, p2)) && p2.len() <= usize::MAX implies false by {
                    lemma_frame_decode(k2, p2);
                    assert(framed@ == frame(k2, p2));
                }
            }
            Err(e)
        },
    }
}

/// An in-memory model of the objects tree: compressed object files keyed
/// by their identifiers. The disk-backed store is this map realized as
/// `objects/<first 2>/<remaining 38>` files.
pub struct Store {
    objects: Vec<(String, Vec<u8>)>,
}

impl Store {
    /// The entry `e` holds exactly the object `(k, p)`: it is keyed by
    /// the derived identifier and holds the compressed framed bytes.
    pub closed spec fn entry_is(e: (String, Vec<u8>), k: Kind, p: Seq<u8>) -> bool {
        &&& e.0@ == id_of(k, p)
        &&& is_valid_id(e.0@)
        &&& e.1@ == zlib_of(frame(k, p))
        &&& p.len() <= usize::MAX
    }

    /// The entry `e` is the stored form of some object.
    pub closed spec fn entry_ok(e: (String, Vec<u8>)) -> bool {
        exists|k: Kind, p: Seq<u8>| Self::entry_is(e, k, p)
    }

    /// Well-formed store: every entry is the stored form of some object,
    /// and identifiers are unique keys.
    pub closed spec fn wf(self) -> bool {
        &&& forall|i: int|
            0 <= i < self.objects@.len() ==> Self::entry_ok(#[trigger] self.objects@[i])
        &&& forall|i: int, j: int|
            0 <= i < j < self.objects@.len() ==> (#[trigger] self.objects@[i]).0@ != (
            #[trigger] self.objects@[j]).0@
    }

    /// Some entry is keyed by `id`.
    pub closed spec fn has_id(self, id: Seq<char>) -> bool {
        exists|i: int| 0 <= i < self.objects@.len() && (#[trigger] self.objects@[i]).0@ == id
    }

    /// The object `(k, p)` is stored under `id`.
    pub closed spec fn stores(self, id: Seq<char>, k: Kind, p: Seq<u8>) -> bool {
        exists|i: int|
            0 <= i < self.objects@.len() && (#[trigger] self.objects@[i]).0@ == id
                && Self::entry_is(self.objects@[i], k, p)
    }

    /// An empty store.
    pub fn new() -> (s: Store)
        ensures
            s.wf(),
            forall|id: Seq<char>| !s.has_id(id),
            forall|id: Seq<char>, k: Kind, p: Seq<u8>| !s.stores(id, k, p),
    {
        Store { objects: Vec::new() }
    }

    /// Index of the entry keyed by `id`, if any.
    fn find(&self, id: &String) -> (r: Option<usize>)
        ensures
            match r {
                Some(i) => i < self.objects@.len() && self.objects@[i as int].0@ == id@,
                None => !self.has_id(id@),
            },
    {
        let n = self.objects.len();
        let mut i: usize = 0;
        while i < n
            invariant
                0 <= i <= n,
                n == self.objects@.len(),
                forall|j: int| 0 <= j < i ==> (#[trigger] self.objects@[j]).0@ != id@,
            decreases n - i,
        {
            if self.objects[i].0 == *id {
                return Some(i);
            }
            i = i + 1;
        }
        None
    }

    /// Stores the object `(k, payload)` when `persist` is set, and in
    /// every case derives and returns its identifier.
    ///
    /// The identifier is a pure function of kind and payload: a dry run
    /// (`persist` unset) returns the same identifier as a persisting call,
    /// and repeated calls agree. A persisting call on an identifier that
    /// is already present leaves the store unchanged.
    pub fn put(&mut self, k: Kind, payload: &[u8], persist: bool) -> (r: String)
        requires
            old(self).wf(),
        ensures
            final(self).wf(),
            r@ == id_of(k, payload@),
            is_valid_id(r@),
            !persist ==> *final(self) == *old(self),
            persist ==> final(self).has_id(id_of(k, payload@)),
            persist && !old(self).has_id(id_of(k, payload@)) ==> final(self).stores(
                id_of(k, payload@),
                k,
                payload@,
            ),
            forall|id: Seq<char>, k2: Kind, p2: Seq<u8>|
                old(self).stores(id, k2, p2) ==> final(self).stores(id, k2, p2),
            forall|id: Seq<char>|
                final(self).has_id(id) == (old(self).has_id(id) || (persist && id == id_of(
                    k,
                    payload@,
                ))),
    {
        let id = object_id(k, payload);
        if !persist {
            return id;
        }
        match self.find(&id) {
            Some(i) => {
                proof {
                    assert(self.objects@[i as int].0@ == id_of(k, payload@));
                    assert(final(self).has_id(id_of(k, payload@)));
                }
                id
            },
            None => {
                let framed = encode_object(k, payload);
                let bytes = zlib_compress(framed.as_slice());
                let key = id.clone();
                self.objects.push((key, bytes));
                proof {
                    let n = self.objects@.len() - 1;
                    assert(Self::entry_is(self.objects@[n], k, payload@));
                    assert(Self::entry_ok(self.objects@[n]));
                    assert forall|i: int, j: int|
                        0 <= i < j < self.objects@.len() implies (
                    #[trigger] self.objects@[i]).0@ != (#[trigger] self.objects@[j]).0@ by {
                        if j < n {
                            assert(self.objects@[i] == old(self).objects@[i]);
                            assert(self.objects@[j] == old(self).objects@[j]);
                            assert(old(self).objects@[i].0@ != old(self).objects@[j].0@);
                        } else {
                            assert(self.objects@[i] == old(self).objects@[i]);
                            assert(self.objects@[j].0@ == id@);
                            assert(old(self).objects@[i].0@ != id@);
                        }
                    }
                    assert forall|id2: Seq<char>, k2: Kind, p2: Seq<u8>|
                        old(self).stores(id2, k2, p2) implies final(self).stores(id2, k2, p2) by {
                        let j = choose|j: int|
                            0 <= j < old(self).objects@.len() && (
                            #[trigger] old(self).objects@[j]).0@ == id2 && Self::entry_is(
                                old(self).objects@[j],
                                k2,
                                p2,
                            );
                        assert(self.objects@[j].0@ == id2 && Self::entry_is(
                            self.objects@[j],
                            k2,
                            p2,
                        ));
                    }
                    assert(self.objects@[n].0@ == id_of(k, payload@));
                    assert(final(self).stores(id_of(k, payload@), k, payload@));
                    assert forall|i: int|
                        0 <= i < self.objects@.len() implies Self::entry_ok(
                        #[trigger] self.objects@[i],
                    ) by {
                        if i < n {
                            assert(self.objects@[i] == old(self).objects@[i]);
                            assert(Self::entry_ok(old(self).objects@[i]));
                        }
                    }
                    assert forall|id2: Seq<char>|
                        final(self).has_id(id2) == (old(self).has_id(id2) || id2 == id_of(
                            k,
                            payload@,
                        )) by {
                        if old(self).has_id(id2) {
                            let j = choose|j: int|
                                0 <= j < old(self).objects@.len() && (
                                #[trigger] old(self).objects@[j]).0@ == id2;
                            assert(self.objects@[j].0@ == id2);
                        }
                        if id2 == id_of(k, payload@) {
                            assert(self.objects@[n].0@ == id2);
                        }
                        if final(self).has_id(id2) {
                            let j = choose|j: int|
                                0 <= j < self.objects@.len() && (
                                #[trigger] self.objects@[j]).0@ == id2;
                            if j < n {
                                assert(old(self).objects@[j].0@ == id2);
                            }
                        }
                    }
                }
                id
            },
        }
    }

    /// Reads back the payload stored under `id`.
    ///
    /// Identifier syntax is checked before anything else; an absent
    /// identifier is `ObjectNotFound`; a stored object of any kind other
    /// than `Blob` is `UnsupportedKind`; the payload of a stored blob
    /// comes back exactly as it was put.
    pub fn get(&self, id: &str) -> (r: Result<Vec<u8>, StoreError>)
        requires
            self.wf(),
        ensures
            !is_valid_id(id@) ==> r == Err::<Vec<u8>, StoreError>(StoreError::InvalidIdentifier),
            is_valid_id(id@) && !self.has_id(id@) ==> r == Err::<Vec<u8>, StoreError>(
                StoreError::ObjectNotFound,
            ),
            forall|k: Kind, p: Seq<u8>|
                self.stores(id@, k, p) ==> if k is Blob {
                    r is Ok && r->Ok_0@ == p
                } else {
                    r == Err::<Vec<u8>, StoreError>(StoreError::UnsupportedKind)
                },
    {
        if !validate_id(id) {
            proof {
                assert forall|k: Kind, p: Seq<u8>| !self.stores(id@, k, p) by {}
            }
            return Err(StoreError::InvalidIdentifier);
        }
        let id_string = id.to_owned();
        let i = match self.find(&id_string) {
            Some(i) => i,
            None => {
                return Err(StoreError::ObjectNotFound);
            },
        };
        let r = decode_stored(self.objects[i].1.as_slice());
        proof {
            assert forall|k: Kind, p: Seq<u8>| self.stores(id@, k, p) implies self.objects@[
                i as int].1@ == zlib_of(frame(k, p)) && p.len() <= usize::MAX by {
            let j = choose|j: int|
                    0 <= j < self.objects@.len() && (#[trigger] self.objects@[j]).0@ == id@
                        && Self::entry_is(self.objects@[j], k, p);
                assert(j == i);
            }
        }
        r
    }
}

/// The round trip of the store, stated as verified code: persisting a
/// blob payload and immediately reading its identifier back yields
/// exactly the original payload, for every payload.
pub fn put_get_round_trip(payload: &[u8]) -> (r: Vec<u8>)
    ensures
        r@ == payload@,
{
    let mut s = Store::new();
    let id = s.put(Kind::Blob, payload, true);
    match s.get(id.as_str()) {
        Ok(p) => p,
        Err(_) => vstd::pervasive::unreached(),
    }
}

/// The fixed skeleton of a fresh repository: the root directory, its two
/// empty subtrees, and the HEAD pointer with its symbolic reference to
/// the default branch.
#[derive(Debug)]
pub struct RepoLayout {
    pub root: String,
    pub objects_dir: String,
    pub refs_dir: String,
    pub head_file: String,
    pub head_contents: String,
}

/// Decides initialization from the one observation that matters: whether
/// the repository root already exists. An existing root deterministically
/// fails with `AlreadyInitialized`; otherwise the fixed skeleton is
/// returned for creation, identical on every call.
pub fn plan_init(root_exists: bool) -> (r: Result<RepoLayout, StoreError>)
    ensures
        root_exists ==> r == Err::<RepoLayout, StoreError>(StoreError::AlreadyInitialized),
        !root_exists ==> {
            &&& r is Ok
            &&& r->Ok_0.root@ == ".git"@
            &&& r->Ok_0.objects_dir@ == ".git/objects"@
            &&& r->Ok_0.refs_dir@ == ".git/refs"@
            &&& r->Ok_0.head_file@ == ".git/HEAD"@
            &&& r->Ok_0.head_contents@ == "ref: refs/heads/main\n"@
        },
{
    if root_exists {
        return Err(StoreError::AlreadyInitialized);
    }
    Ok(
        RepoLayout {
            root: ".git".to_owned(),
            objects_dir: ".git/objects".to_owned(),
            refs_dir: ".git/refs".to_owned(),
            head_file: ".git/HEAD".to_owned(),
            head_contents: "ref: refs/heads/main\n".to_owned(),
        },
    )
}

} // verus!
