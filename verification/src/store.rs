//! The Model Store: sole owner of the durable catalog of trace definitions.
//! All mutation goes through [`DataActor::handle`], one message at a time, so
//! callers always observe the catalog in a consistent, linearized state.
//!
//! The catalog lives in an embedded key-value tree (sled). Its contents are
//! modelled by the uninterpreted map [`db_entries`]; every operation's
//! contract says how that map is read or changed.
use vstd::prelude::*;
use vstd::utf8::{encode_utf8, decode_utf8, valid_utf8};
use vstd::slice::slice_to_vec;

use crate::codec::{spec_encode_model, spec_decode_model, encode_model, decode_model};
use crate::model::TraceModel;

verus! {

broadcast use vstd::utf8::group_utf8_lib;

/// The error taxonomy of the command and supervision core.
#[derive(Debug, Clone, PartialEq, Eq)]
pub enum TraceError {
    /// No catalog record or running execution under the given name.
    NotFound(String),
    /// A record or running execution with the given name already exists.
    Conflict(String),
    /// A stored record could not be decoded.
    Serialization,
    /// The storage layer reported an error.
    StorageIO,
    /// The tracer child process could not be spawned.
    ProcessSpawn,
    /// The tracer child process ended abnormally.
    ProcessExit,
    /// The remote connection was reset or closed.
    Transport,
}

/// A request to the Model Store.
pub enum DbMsg {
    QueryAll,
    Kill,
    Get(String),
    Remove(String),
    Add(TraceModel),
}

/// A successful reply from the Model Store.
#[derive(Clone, Debug, PartialEq, Eq)]
pub enum DbReply {
    AllList(Vec<TraceModel>),
    GetResult(TraceModel),
    Success,
}

#[verifier::external_type_specification]
#[verifier::external_body]
pub struct ExDb(sled::Db);

/// The contents of a sled tree, as a map from key bytes to value bytes.
pub uninterp spec fn db_entries(db: sled::Db) -> Map<Seq<u8>, Seq<u8>>;

/// The catalog key of a definition: the raw UTF-8 bytes of its name.
pub open spec fn name_key(name: Seq<char>) -> Seq<u8> {
    encode_utf8(name)
}

/// Lexicographic order on key bytes: the order sled stores and iterates
/// keys in.
pub open spec fn bytes_lt(a: Seq<u8>, b: Seq<u8>) -> bool
    decreases a.len(),
{
    if b.len() == 0 {
        false
    } else if a.len() == 0 {
        true
    } else if a[0] < b[0] {
        true
    } else if a[0] > b[0] {
        false
    } else {
        bytes_lt(a.drop_first(), b.drop_first())
    }
}

/// The listing `ms` pairs up with the keys `ks`, in ascending key order:
/// entry by entry, `ms[i]` is the decode of the record under `ks[i]`, and
/// every catalog key is among `ks`.
pub open spec fn listing_with(
    cat: Map<Seq<u8>, Seq<u8>>,
    ms: Seq<TraceModel>,
    ks: Seq<Seq<u8>>,
) -> bool {
    &&& ks.len() == ms.len()
    &&& forall|i: int, j: int| 0 <= i < j < ks.len() ==> bytes_lt(#[trigger] ks[i], #[trigger] ks[j])
    &&& forall|i: int, j: int| 0 <= i < j < ks.len() ==> ks[i] != ks[j]
    &&& forall|i: int|
        0 <= i < ks.len() ==> cat.dom().contains(#[trigger] ks[i]) && spec_decode_model(
            cat[ks[i]],
        ) == Some(ms[i]@)
    &&& forall|k: Seq<u8>| #[trigger] cat.dom().contains(k) ==> ks.contains(k)
}

/// What a full listing returns: exactly one decoded definition per catalog
/// entry, each entry decoded once.
pub open spec fn all_decoded(cat: Map<Seq<u8>, Seq<u8>>, ms: Seq<TraceModel>) -> bool {
    &&& ms.len() == cat.dom().len()
    &&& exists|ks: Seq<Seq<u8>>| listing_with(cat, ms, ks)
}

/// Relies on sled::Tree::contains_key: whether the tree holds the key.
#[verifier::external_body]
fn db_contains(db: &sled::Db, key: &Vec<u8>) -> (r: Result<bool, TraceError>)
    ensures
        r matches Ok(b) ==> b == db_entries(*db).dom().contains(key@),
        r matches Err(e) ==> e is StorageIO,
{
    match db.contains_key(key.as_slice()) {
        Ok(b) => Ok(b),
        Err(_) => Err(TraceError::StorageIO),
    }
}

/// Relies on sled::Tree::get: the value stored under the key, if any.
#[verifier::external_body]
fn db_get(db: &sled::Db, key: &Vec<u8>) -> (r: Result<Option<Vec<u8>>, TraceError>)
    ensures
        r matches Ok(o) ==> match o {
            Some(v) => db_entries(*db).dom().contains(key@) && v@ == db_entries(*db)[key@],
            None => !db_entries(*db).dom().contains(key@),
        },
        r matches Err(e) ==> e is StorageIO,
{
    match db.get(key.as_slice()) {
        Ok(Some(iv)) => Ok(Some(iv.to_vec())),
        Ok(None) => Ok(None),
        Err(_) => Err(TraceError::StorageIO),
    }
}

/// Relies on sled::Tree::insert: on success the tree maps the key to the
/// value. A storage fault may leave the tree either way, so an error claims
/// nothing of the contents.
#[verifier::external_body]
fn db_insert(db: &mut sled::Db, key: &Vec<u8>, value: &Vec<u8>) -> (r: Result<(), TraceError>)
    ensures
        r is Ok ==> db_entries(*final(db)) == db_entries(*old(db)).insert(key@, value@),
        r matches Err(e) ==> e is StorageIO,
{
    match db.insert(key.as_slice(), value.as_slice()) {
        Ok(_) => Ok(()),
        Err(_) => Err(TraceError::StorageIO),
    }
}

/// Relies on sled::Tree::remove: on success the key is gone and the previous
/// value reports whether it was there. A storage fault may leave the tree
/// either way, so an error claims nothing of the contents.
#[verifier::external_body]
fn db_remove(db: &mut sled::Db, key: &Vec<u8>) -> (r: Result<bool, TraceError>)
    ensures
        r matches Ok(existed) ==> {
            &&& existed == db_entries(*old(db)).dom().contains(key@)
            &&& (existed ==> db_entries(*final(db)) == db_entries(*old(db)).remove(key@))
            &&& (!existed ==> db_entries(*final(db)) == db_entries(*old(db)))
        },
        r matches Err(e) ==> e is StorageIO,
{
    match db.remove(key.as_slice()) {
        Ok(prev) => Ok(prev.is_some()),
        Err(_) => Err(TraceError::StorageIO),
    }
}

/// Relies on sled::Tree::iter: it yields exactly the tree's entries, one
/// pair per key, in ascending key order.
#[verifier::external_body]
fn db_all_entries(db: &sled::Db) -> (r: Result<Vec<(Vec<u8>, Vec<u8>)>, TraceError>)
    ensures
        r matches Ok(ps) ==> {
            &&& db_entries(*db).dom().finite()
            &&& ps@.len() == db_entries(*db).dom().len()
            &&& forall|i: int, j: int|
                0 <= i < j < ps@.len() ==> bytes_lt(((#[trigger] ps@[i]).0)@, ((#[trigger] ps@[j]).0)@)
            &&& forall|i: int, j: int| 0 <= i < j < ps@.len() ==> (ps@[i].0)@ != (ps@[j].0)@
            &&& forall|i: int|
                0 <= i < ps@.len() ==> db_entries(*db).dom().contains((#[trigger] ps@[i]).0@)
                    && db_entries(*db)[ps@[i].0@] == (ps@[i].1)@
            &&& forall|k: Seq<u8>|
                #[trigger] db_entries(*db).dom().contains(k) ==> exists|i: int|
                    0 <= i < ps@.len() && (ps@[i].0)@ == k
        },
        r matches Err(e) ==> e is StorageIO,
{
    let mut out: Vec<(Vec<u8>, Vec<u8>)> = Vec::new();
    for pair in db.iter() {
        match pair {
            Ok((key, value)) => out.push((key.to_vec(), value.to_vec())),
            Err(_) => {
                return Err(TraceError::StorageIO);
            },
        }
    }
    Ok(out)
}

/// Relies on sled::Tree::flush: it forces pending writes to stable storage
/// and does not change the tree's contents.
#[verifier::external_body]
fn db_flush(db: &sled::Db) -> (r: Result<usize, TraceError>)
{
    match db.flush() {
        Ok(n) => Ok(n),
        Err(_) => Err(TraceError::StorageIO),
    }
}

/// The raw UTF-8 key bytes of a name.
fn key_bytes(name: &str) -> (r: Vec<u8>)
    ensures
        r@ == name_key(name@),
{
    slice_to_vec(name.as_bytes())
}

/// Store a raw string value under a key, refusing keys already present.
pub fn insert_str(key: &String, content: &String, db: &mut sled::Db) -> (r: Result<
    (),
    TraceError,
>)
    ensures
        r is Ok ==> !db_entries(*old(db)).dom().contains(name_key(key@)) && db_entries(*final(db))
            == db_entries(*old(db)).insert(name_key(key@), encode_utf8(content@)),
        r matches Err(e) ==> match e {
            TraceError::Conflict(n) => n@ == key@ && db_entries(*old(db)).dom().contains(
                name_key(key@),
            ) && db_entries(*final(db)) == db_entries(*old(db)),
            TraceError::StorageIO => db_entries(*old(db)).dom().contains(name_key(key@))
                ==> db_entries(*final(db)) == db_entries(*old(db)),
            _ => false,
        },
{
    let kb = key_bytes(key.as_str());
    match db_contains(db, &kb) {
        Err(e) => Err(e),
        Ok(true) => Err(TraceError::Conflict(key.clone())),
        Ok(false) => {
            let vb = slice_to_vec(content.as_str().as_bytes());
            match db_insert(db, &kb, &vb) {
                Ok(()) => {
                    let _flush = db_flush(db);
                    Ok(())
                },
                Err(e) => Err(e),
            }
        },
    }
}

/// Read back a raw string value stored under a key.
pub fn query_str(key: &String, db: &sled::Db) -> (r: Result<String, TraceError>)
    ensures
        r matches Ok(s) ==> db_entries(*db).dom().contains(name_key(key@)) && valid_utf8(
            db_entries(*db)[name_key(key@)],
        ) && s@ == decode_utf8(db_entries(*db)[name_key(key@)]),
        r matches Err(e) ==> match e {
            TraceError::NotFound(n) => n@ == key@ && !db_entries(*db).dom().contains(
                name_key(key@),
            ),
            TraceError::Serialization => db_entries(*db).dom().contains(name_key(key@))
                && !valid_utf8(db_entries(*db)[name_key(key@)]),
            TraceError::StorageIO => true,
            _ => false,
        },
{
    let kb = key_bytes(key.as_str());
    match db_get(db, &kb) {
        Err(e) => Err(e),
        Ok(None) => Err(TraceError::NotFound(key.clone())),
        Ok(Some(bytes)) => match String::from_utf8(bytes) {
            Ok(s) => Ok(s),
            Err(_) => Err(TraceError::Serialization),
        },
    }
}

/// Fetch and decode the definition stored under a name.
pub fn query_model(name: &String, db: &sled::Db) -> (r: Result<TraceModel, TraceError>)
    ensures
        r matches Ok(m) ==> db_entries(*db).dom().contains(name_key(name@)) && spec_decode_model(
            db_entries(*db)[name_key(name@)],
        ) == Some(m@),
        r matches Err(e) ==> match e {
            TraceError::NotFound(n) => n@ == name@ && !db_entries(*db).dom().contains(
                name_key(name@),
            ),
            TraceError::Serialization => db_entries(*db).dom().contains(name_key(name@))
                && spec_decode_model(db_entries(*db)[name_key(name@)]) is None,
            TraceError::StorageIO => true,
            _ => false,
        },
{
    let kb = key_bytes(name.as_str());
    match db_get(db, &kb) {
        Err(e) => Err(e),
        Ok(None) => Err(TraceError::NotFound(name.clone())),
        Ok(Some(bytes)) => match decode_model(bytes.as_slice()) {
            Some(m) => Ok(m),
            None => Err(TraceError::Serialization),
        },
    }
}

/// Encode a definition and store it under its name, refusing names already
/// present. The record is durably written before success is reported; the
/// trailing flush is best-effort, as the durability policy asks.
pub fn insert_model(model: &TraceModel, db: &mut sled::Db) -> (r: Result<(), TraceError>)
    ensures
        r is Ok ==> !db_entries(*old(db)).dom().contains(name_key(model.name@)) && db_entries(
            *final(db),
        ) == db_entries(*old(db)).insert(name_key(model.name@), spec_encode_model(model@)),
        r matches Err(e) ==> match e {
            TraceError::Conflict(n) => n@ == model.name@ && db_entries(*old(db)).dom().contains(
                name_key(model.name@),
            ) && db_entries(*final(db)) == db_entries(*old(db)),
            TraceError::StorageIO => db_entries(*old(db)).dom().contains(name_key(model.name@))
                ==> db_entries(*final(db)) == db_entries(*old(db)),
            _ => false,
        },
{
    let kb = key_bytes(model.name.as_str());
    match db_contains(db, &kb) {
        Err(e) => Err(e),
        Ok(true) => Err(TraceError::Conflict(model.name.clone())),
        Ok(false) => {
            let vb = encode_model(model);
            match db_insert(db, &kb, &vb) {
                Ok(()) => {
                    let _flush = db_flush(db);
                    Ok(())
                },
                Err(e) => Err(e),
            }
        },
    }
}

/// The Model Store actor: exclusive owner of the catalog handle.
pub struct DataActor {
    db: sled::Db,
    accepting: bool,
}

impl DataActor {
    /// The catalog's current contents.
    pub closed spec fn catalog(&self) -> Map<Seq<u8>, Seq<u8>> {
        db_entries(self.db)
    }

    /// Whether the store still accepts messages (false after `Kill`).
    pub closed spec fn is_accepting(&self) -> bool {
        self.accepting
    }

    /// Exec view of [`Self::is_accepting`], for callers outside the proof.
    pub fn accepts(&self) -> (r: bool)
        ensures
            r == self.is_accepting(),
    {
        self.accepting
    }

    pub fn new(db: sled::Db) -> (r: Self)
        ensures
            r.catalog() == db_entries(db),
            r.is_accepting(),
    {
        DataActor { db, accepting: true }
    }

    /// Process one Model Store message. Exactly one message runs at a time,
    /// which is what linearizes the catalog without explicit locks.
    #[verifier::loop_isolation(false)]
    pub fn handle(&mut self, msg: DbMsg) -> (r: Result<DbReply, TraceError>)
        requires
            old(self).is_accepting(),
        ensures
            final(self).is_accepting() == !(msg is Kill),
            match msg {
                DbMsg::QueryAll => {
                    &&& final(self).catalog() == old(self).catalog()
                    &&& match r {
                        Ok(rep) => rep matches DbReply::AllList(ms) && all_decoded(
                            old(self).catalog(),
                            ms@,
                        ),
                        Err(e) => match e {
                            TraceError::Serialization => exists|k: Seq<u8>|
                                #[trigger] old(self).catalog().dom().contains(k)
                                    && spec_decode_model(old(self).catalog()[k]) is None,
                            TraceError::StorageIO => true,
                            _ => false,
                        },
                    }
                },
                DbMsg::Get(name) => {
                    &&& final(self).catalog() == old(self).catalog()
                    &&& match r {
                        Ok(rep) => rep matches DbReply::GetResult(m) && old(self).catalog().dom().contains(name_key(name@)) && spec_decode_model(
                            old(self).catalog()[name_key(name@)],
                        ) == Some(m@),
                        Err(e) => match e {
                            TraceError::NotFound(n) => n@ == name@ && !old(self).catalog().dom().contains(name_key(name@)),
                            TraceError::Serialization => old(self).catalog().dom().contains(
                                name_key(name@),
                            ) && spec_decode_model(old(self).catalog()[name_key(name@)]) is None,
                            TraceError::StorageIO => true,
                            _ => false,
                        },
                    }
                },
                DbMsg::Add(model) => match r {
                    Ok(rep) => rep is Success && !old(self).catalog().dom().contains(
                        name_key(model.name@),
                    ) && final(self).catalog() == old(self).catalog().insert(
                        name_key(model.name@),
                        spec_encode_model(model@),
                    ),
                    Err(e) => match e {
                        TraceError::Conflict(n) => n@ == model.name@ && old(self).catalog().dom().contains(name_key(model.name@)) && final(self).catalog()
                            == old(self).catalog(),
                        TraceError::StorageIO => old(self).catalog().dom().contains(
                            name_key(model.name@),
                        ) ==> final(self).catalog() == old(self).catalog(),
                        _ => false,
                    },
                },
                DbMsg::Remove(name) => match r {
                    Ok(rep) => rep is Success && old(self).catalog().dom().contains(
                        name_key(name@),
                    ) && final(self).catalog() == old(self).catalog().remove(name_key(name@)),
                    Err(e) => match e {
                        TraceError::NotFound(n) => n@ == name@ && !old(self).catalog().dom().contains(name_key(name@)) && final(self).catalog() == old(self).catalog(),
                        TraceError::StorageIO => true,
                        _ => false,
                    },
                },
                DbMsg::Kill => {
                    &&& final(self).catalog() == old(self).catalog()
                    &&& match r {
                        Ok(rep) => rep is Success,
                        Err(e) => e is StorageIO,
                    }
                },
            },
    {
        match msg {
            DbMsg::QueryAll => {
                match db_all_entries(&self.db) {
                    Err(e) => Err(e),
                    Ok(ps) => {
                        let ghost cat0 = db_entries(self.db);
                        let ghost ksv = ps@.map_values(|p: (Vec<u8>, Vec<u8>)| p.0@);
                        let mut out: Vec<TraceModel> = Vec::new();
                        let mut i: usize = 0;
                        while i < ps.len()
                            invariant
                                0 <= i <= ps.len(),
                                out@.len() == i,
                                forall|j: int|
                                    0 <= j < i ==> cat0.dom().contains((#[trigger] ps@[j]).0@)
                                        && spec_decode_model(cat0[ps@[j].0@]) == Some(out@[j]@),
                            decreases ps.len() - i,
                        {
                            match decode_model(ps[i].1.as_slice()) {
                                Some(m) => {
                                    out.push(m);
                                },
                                None => {
                                    proof {
                                        assert(cat0.dom().contains(ps@[i as int].0@)
                                            && spec_decode_model(
                                            cat0[ps@[i as int].0@],
                                        ) is None);
                                    }
                                    return Err(TraceError::Serialization);
                                },
                            }
                            i = i + 1;
                        }
                        proof {
                            assert(out@.len() == cat0.dom().len());
                            assert forall|a: int, b: int|
                                0 <= a < b < ksv.len() implies bytes_lt(
                                #[trigger] ksv[a],
                                #[trigger] ksv[b],
                            ) by {
                                assert(bytes_lt((ps@[a].0)@, (ps@[b].0)@));
                            }
                            assert forall|a: int, b: int|
                                0 <= a < b < ksv.len() implies ksv[a] != ksv[b] by {
                                assert((ps@[a].0)@ != (ps@[b].0)@);
                            }
                            assert forall|j: int|
                                0 <= j < ksv.len() implies cat0.dom().contains(#[trigger] ksv[j])
                                    && spec_decode_model(cat0[ksv[j]]) == Some(out@[j]@) by {
                                assert(ksv[j] == (ps@[j].0)@);
                            }
                            assert forall|k: Seq<u8>| #[trigger]
                                cat0.dom().contains(k) implies ksv.contains(k) by {
                                let w = choose|w: int|
                                    0 <= w < ps@.len() && (ps@[w].0)@ == k;
                                assert(ksv[w] == k);
                            }
                            assert(listing_with(cat0, out@, ksv));
                            assert(all_decoded(cat0, out@));
                        }
                        Ok(DbReply::AllList(out))
                    },
                }
            },
            DbMsg::Get(name) => {
                match query_model(&name, &self.db) {
                    Ok(m) => Ok(DbReply::GetResult(m)),
                    Err(e) => Err(e),
                }
            },
            DbMsg::Add(model) => {
                match insert_model(&model, &mut self.db) {
                    Ok(()) => Ok(DbReply::Success),
                    Err(e) => Err(e),
                }
            },
            DbMsg::Remove(name) => {
                let kb = key_bytes(name.as_str());
                match db_remove(&mut self.db, &kb) {
                    Err(e) => Err(e),
                    Ok(true) => {
                        let _flush = db_flush(&self.db);
                        Ok(DbReply::Success)
                    },
                    Ok(false) => Err(TraceError::NotFound(name)),
                }
            },
            DbMsg::Kill => {
                self.accepting = false;
                match db_flush(&self.db) {
                    Ok(_) => Ok(DbReply::Success),
                    Err(_) => Err(TraceError::StorageIO),
                }
            },
        }
    }
}

} // verus!
