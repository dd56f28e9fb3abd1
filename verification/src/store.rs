//! The embedded key-value store behind the manager, held at arm's
//! length: the store's contents are modelled as a map from key bytes to
//! value bytes, and each operation the manager needs is a thin call
//! whose stated effect on that map is what sled's source and
//! documentation show.

use vstd::prelude::*;
use vstd::string::StringSliceAdditionalSpecFns;

verus! {

#[verifier::external_type_specification]
#[verifier::external_body]
pub struct ExDb(sled::Db);

#[verifier::external_type_specification]
#[verifier::external_body]
pub struct ExSledError(sled::Error);

/// The contents of an open store: which value bytes sit under which key
/// bytes.
pub uninterp spec fn db_model(db: sled::Db) -> Map<Seq<u8>, Seq<u8>>;

/// Relies on `sled::open`: opens or creates the store rooted at the
/// path, failing on an unusable path (permissions, corruption, a lock
/// held elsewhere). What an opened store holds depends on the disk, so
/// nothing is promised of its contents.
#[verifier::external_body]
pub(crate) fn db_open(path: &str) -> Result<sled::Db, sled::Error> {
    sled::open(path)
}

/// Relies on `sled::Tree::get`: returns the value stored under the key,
/// or nothing when the key is absent.
#[verifier::external_body]
pub(crate) fn db_get(db: &sled::Db, key: &str) -> (r: Result<Option<Vec<u8>>, sled::Error>)
    ensures
        match r {
            Ok(Some(v)) => db_model(*db).contains_key(key.spec_bytes()) && v@ == db_model(
                *db,
            )[key.spec_bytes()],
            Ok(None) => !db_model(*db).contains_key(key.spec_bytes()),
            Err(_) => true,
        },
{
    match db.get(key.as_bytes()) {
        Ok(Some(v)) => Ok(Some(v.to_vec())),
        Ok(None) => Ok(None),
        Err(e) => Err(e),
    }
}

/// Relies on `sled::Tree::insert`: on success the store maps the key to
/// the value and every other key is untouched; on failure nothing is
/// said of the contents.
#[verifier::external_body]
pub(crate) fn db_insert(db: &mut sled::Db, key: &str, value: &[u8]) -> (r: Result<
    (),
    sled::Error,
>)
    ensures
        r is Ok ==> db_model(*final(db)) == db_model(*old(db)).insert(key.spec_bytes(), value@),
{
    db.insert(key.as_bytes(), value).map(|_| ())
}

/// Relies on `sled::Tree::remove`: on success the key is absent and
/// every other key is untouched; removing an absent key also succeeds.
#[verifier::external_body]
pub(crate) fn db_remove(db: &mut sled::Db, key: &str) -> (r: Result<(), sled::Error>)
    ensures
        r is Ok ==> db_model(*final(db)) == db_model(*old(db)).remove(key.spec_bytes()),
{
    db.remove(key.as_bytes()).map(|_| ())
}

/// Relies on `sled::Tree::iter`: walks every stored entry exactly once,
/// yielding each key-value pair; an I/O fault aborts the walk.
#[verifier::external_body]
pub(crate) fn db_entries(db: &sled::Db) -> (r: Result<Vec<(Vec<u8>, Vec<u8>)>, sled::Error>)
    ensures
        r matches Ok(es) ==> {
            &&& es@.map_values(|p: (Vec<u8>, Vec<u8>)| p.0@).no_duplicates()
            &&& es@.map_values(|p: (Vec<u8>, Vec<u8>)| p.0@).to_set() == db_model(*db).dom()
            &&& forall|i: int|
                0 <= i < es@.len() ==> db_model(*db).contains_key(#[trigger] es@[i].0@)
                    && es@[i].1@ == db_model(*db)[es@[i].0@]
        },
{
    let mut out = Vec::new();
    for item in db.iter() {
        let (k, v) = item?;
        out.push((k.to_vec(), v.to_vec()));
    }
    Ok(out)
}

} // verus!
