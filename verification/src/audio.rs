//! The audio repository: the earlier shape of the sample repository, kept
//! alongside it. It creates a sample row with its blob, reads one or all
//! rows back, hands out blob data, and deletes a row together with its
//! blob — without the relation guard the sample repository adds, and with
//! a missing blob surfacing as an error on delete.

use vstd::prelude::*;
use vstd::string::StringExecFns;

use crate::errors::{DbError, DriverError, FsError, RepoError};
use crate::files::{blob_at, blob_index, FileStorage};
use crate::ident::{Identified, RecordKey, StringIdentified, Thing, TryIntoStringId};
use crate::sample::sample_created;
use crate::store::{find_sample, find_sample_index, fresh_key, lemma_decimal_key_segment,
    retain_samples, sample_name_taken, sample_named, without_sample, SampleInfo, SampleRow,
    Store};
use crate::text::{decimal_chars, last_segment};

verus! {

/// The per-request repository for audio samples; it borrows the shared
/// store and blob store on each call.
pub struct AudioRepository {}

impl AudioRepository {
    /// Creates a sample: a new row under a fresh identifier, then its blob
    /// under that identifier. A taken name is refused by the name index
    /// before anything changes.
    pub fn create(
        &self,
        store: &mut Store,
        files: &mut FileStorage,
        info: SampleInfo,
        data: Vec<u8>,
    ) -> (r: Result<StringIdentified<SampleInfo>, RepoError>)
        requires
            old(store).wf(),
            old(store).next_key < u64::MAX,
        ensures
            final(store).wf(),
            r is Ok <==> !sample_named(old(store).samples@, info.name@) && blob_at(
                old(files).entries@,
                decimal_chars(old(store).next_key as nat),
            ) is None,
            sample_named(old(store).samples@, info.name@) ==> *final(store) == *old(store)
                && *final(files) == *old(files) && (r->Err_0 matches RepoError::Database(
                DbError::Query(DriverError::IndexExists { table, index, value }),
            ) && table@ == "sample"@ && index@ == "sample_name"@ && value@ == info.name@),
            !sample_named(old(store).samples@, info.name@) ==> sample_created(
                *old(store),
                *final(store),
                info,
            ),
            r is Err && !sample_named(old(store).samples@, info.name@) ==> *final(files)
                == *old(files) && r->Err_0 == RepoError::FileStorage(FsError::AlreadyExists),
            r is Ok ==> ({
                let added = final(files).entries@.last();
                &&& final(files).entries@ == old(files).entries@.push(added)
                &&& added.0@ == decimal_chars(old(store).next_key as nat)
                &&& added.1 == data
                &&& final(files).folder == old(files).folder
                &&& r->Ok_0.id@ == decimal_chars(old(store).next_key as nat)
                &&& r->Ok_0.data == info
            }),
    {
        if sample_name_taken(&store.samples, info.name.as_str()) {
            return Result::Err(
                RepoError::Database(
                    DbError::Query(
                        DriverError::IndexExists {
                            table: String::from_str("sample"),
                            index: String::from_str("sample_name"),
                            value: info.name.clone(),
                        },
                    ),
                ),
            );
        }
        let (num, key) = fresh_key(store);
        let returned = info.duplicate();
        store.samples.push(SampleRow { key_num: num, key: key.clone(), info });
        proof {
            lemma_decimal_key_segment(num as nat);
        }
        match files.create(key.as_str(), data) {
            Result::Err(e) => Result::Err(RepoError::FileStorage(e)),
            Result::Ok(_) => {
                let thing = Thing { table: String::from_str("sample"), key: RecordKey::Text(key) };
                match Identified::new(thing, returned).try_into_string_id() {
                    Result::Ok(item) => Result::Ok(item),
                    Result::Err(e) => {
                        // the key was built as a text key, so the
                        // conversion cannot fail
                        proof {
                            assert(false);
                        }
                        Result::Err(RepoError::IdConversion(e))
                    },
                }
            },
        }
    }

    /// Lists every sample with its identifier; an empty store gives an
    /// empty listing, never an error.
    pub fn infos(&self, store: &Store) -> (r: Result<
        Vec<StringIdentified<SampleInfo>>,
        RepoError,
    >)
        ensures
            r is Ok,
            r->Ok_0@.len() == store.samples@.len(),
            forall|i: int|
                0 <= i < store.samples@.len() ==> (#[trigger] r->Ok_0@[i]).id@
                    == store.samples@[i].key@ && r->Ok_0@[i].data == store.samples@[i].info,
    {
        let mut out: Vec<StringIdentified<SampleInfo>> = Vec::new();
        let mut i: usize = 0;
        while i < store.samples.len()
            invariant
                i <= store.samples@.len(),
                out@.len() == i,
                forall|k: int|
                    0 <= k < i ==> (#[trigger] out@[k]).id@ == store.samples@[k].key@
                        && out@[k].data == store.samples@[k].info,
            decreases store.samples@.len() - i,
        {
            let row = &store.samples[i];
            out.push(Identified::new(row.key.clone(), row.info.duplicate()));
            i = i + 1;
        }
        Result::Ok(out)
    }

    /// Deletes a sample and its blob; a missing blob fails the deletion
    /// before the row is touched.
    pub fn delete(&self, store: &mut Store, files: &mut FileStorage, id: String) -> (r: Result<
        (),
        RepoError,
    >)
        requires
            old(store).wf(),
        ensures
            final(store).wf(),
            r is Ok <==> last_segment(id@).len() > 0 && blob_at(
                old(files).entries@,
                last_segment(id@),
            ) is Some,
            r is Err ==> *final(store) == *old(store) && *final(files) == *old(files)
                && r->Err_0 == RepoError::FileStorage(FsError::NotFound),
            r is Ok ==> ({
                &&& final(files).entries@ == old(files).entries@.remove(
                    blob_index(old(files).entries@, last_segment(id@)),
                )
                &&& final(files).folder == old(files).folder
                &&& final(store).samples@ == without_sample(old(store).samples@, id@)
                &&& final(store).next_key == old(store).next_key
                &&& final(store).experiments == old(store).experiments
                &&& final(store).experiment_samples == old(store).experiment_samples
                &&& final(store).results == old(store).results
                &&& final(store).sample_results == old(store).sample_results
                &&& final(store).users == old(store).users
            }),
    {
        match files.delete(id.as_str()) {
            Result::Err(e) => Result::Err(RepoError::FileStorage(e)),
            Result::Ok(_) => {
                let remaining = retain_samples(&store.samples, id.as_str());
                store.samples = remaining;
                Result::Ok(())
            },
        }
    }

    /// Reads one sample; a missing identifier is the typed not-found
    /// failure.
    pub fn info(&self, store: &Store, id: String) -> (r: Result<
        StringIdentified<SampleInfo>,
        RepoError,
    >)
        ensures
            r is Ok <==> find_sample(store.samples@, id@) is Some,
            r is Ok ==> ({
                let row = find_sample(store.samples@, id@)->Some_0;
                r->Ok_0.id@ == row.key@ && r->Ok_0.data == row.info
            }),
            r is Err ==> r->Err_0 == RepoError::Database(DbError::NotFound),
    {
        match find_sample_index(&store.samples, id.as_str()) {
            Option::Some(i) => {
                let row = &store.samples[i];
                let thing = Thing {
                    table: String::from_str("sample"),
                    key: RecordKey::Text(row.key.clone()),
                };
                match Identified::new(thing, row.info.duplicate()).try_into_string_id() {
                    Result::Ok(item) => Result::Ok(item),
                    Result::Err(e) => {
                        // the key was built as a text key, so the
                        // conversion cannot fail
                        proof {
                            assert(false);
                        }
                        Result::Err(RepoError::IdConversion(e))
                    },
                }
            },
            Option::None => Result::Err(RepoError::Database(DbError::NotFound)),
        }
    }

    /// Hands back the blob stored for a sample.
    pub fn data(&self, files: &FileStorage, id: String) -> (r: Result<Vec<u8>, RepoError>)
        ensures
            r is Ok <==> last_segment(id@).len() > 0 && blob_at(
                files.entries@,
                last_segment(id@),
            ) is Some,
            r is Ok ==> Option::Some(r->Ok_0@) == blob_at(files.entries@, last_segment(id@)),
            r is Err ==> r->Err_0 == RepoError::FileStorage(FsError::NotFound),
    {
        match files.get(id.as_str()) {
            Result::Ok(data) => Result::Ok(data),
            Result::Err(e) => Result::Err(RepoError::FileStorage(e)),
        }
    }
}

} // verus!
