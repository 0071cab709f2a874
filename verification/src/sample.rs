//! The sample repository: creates a sample row together with its blob,
//! lists samples, hands back blob data, and deletes a sample only while no
//! relation edge still targets it (the protected delete). A name collision
//! on the sample name index surfaces as a structured uniqueness conflict.

use vstd::prelude::*;

use crate::errors::{DbError, DriverError, FsError, RepoError};
use crate::files::{blob_at, blob_index, FileStorage};
use crate::ident::{Identified, StringIdentified};
use crate::store::{find_sample, fresh_key, lemma_decimal_key_segment, lemma_fresh_key_unused,
    retain_samples, sample_is_linked, sample_linked, sample_name_taken, sample_named, SampleInfo,
    SampleRow, Store};
use crate::text::{decimal_chars, last_segment};

verus! {

/// The per-request repository for samples; it borrows the shared store and
/// blob store on each call.
pub struct SampleRepository {}

/// `post` is `pre` with one new sample row holding `info` under the key
/// generated from `pre`'s counter, everything else untouched.
pub open spec fn sample_created(pre: Store, post: Store, info: SampleInfo) -> bool {
    let row = post.samples@.last();
    &&& post.samples@ == pre.samples@.push(row)
    &&& row.key_num == pre.next_key
    &&& row.key@ == decimal_chars(pre.next_key as nat)
    &&& row.info == info
    &&& post.next_key == pre.next_key + 1
    &&& post.experiments == pre.experiments
    &&& post.experiment_samples == pre.experiment_samples
    &&& post.results == pre.results
    &&& post.sample_results == pre.sample_results
    &&& post.users == pre.users
}

impl SampleRepository {
    /// Creates a sample: a new row under a fresh identifier, then its blob
    /// under that identifier. A taken name is refused by the name index
    /// before anything changes; a blob-store failure after the row is
    /// created leaves the row in place, as the blob store is outside the
    /// database transaction.
    pub fn create(
        &self,
        store: &mut Store,
        files: &mut FileStorage,
        info: SampleInfo,
        data: Vec<u8>,
    ) -> (r: Result<StringIdentified<SampleInfo>, RepoError>)
        requires
            old(store).wf(),
            old(store).next_key < u64::MAX,
        ensures
            final(store).wf(),
            r is Ok <==> !sample_named(old(store).samples@, info.name@) && blob_at(
                old(files).entries@,
                decimal_chars(old(store).next_key as nat),
            ) is None,
            sample_named(old(store).samples@, info.name@) ==> *final(store) == *old(store)
                && *final(files) == *old(files) && (r->Err_0 matches RepoError::Database(
                DbError::Query(DriverError::IndexExists { table, index, value }),
            ) && table@ == "sample"@ && index@ == "sample_name"@ && value@ == info.name@),
            !sample_named(old(store).samples@, info.name@) ==> sample_created(
                *old(store),
                *final(store),
                info,
            ),
            r is Err && !sample_named(old(store).samples@, info.name@) ==> *final(files)
                == *old(files) && r->Err_0 == RepoError::FileStorage(FsError::AlreadyExists),
            r is Ok ==> ({
                let added = final(files).entries@.last();
                &&& final(files).entries@ == old(files).entries@.push(added)
                &&& added.0@ == decimal_chars(old(store).next_key as nat)
                &&& added.1 == data
                &&& final(files).folder == old(files).folder
                &&& r->Ok_0.id@ == decimal_chars(old(store).next_key as nat)
                &&& r->Ok_0.data == info
            }),
    {
        if sample_name_taken(&store.samples, info.name.as_str()) {
            return Result::Err(
                RepoError::Database(
                    DbError::Query(
                        DriverError::IndexExists {
                            table: String::from_str("sample"),
                            index: String::from_str("sample_name"),
                            value: info.name.clone(),
                        },
                    ),
                ),
            );
        }
        let (num, key) = fresh_key(store);
        let returned = info.duplicate();
        store.samples.push(SampleRow { key_num: num, key: key.clone(), info });
        proof {
            lemma_decimal_key_segment(num as nat);
        }
        match files.create(key.as_str(), data) {
            Result::Err(e) => Result::Err(RepoError::FileStorage(e)),
            Result::Ok(_) => Result::Ok(Identified::new(key, returned)),
        }
    }

    /// Lists every sample with its identifier; an empty store gives an
    /// empty listing, never an error.
    pub fn infos(&self, store: &Store) -> (r: Result<
        Vec<StringIdentified<SampleInfo>>,
        RepoError,
    >)
        ensures
            r is Ok,
            r->Ok_0@.len() == store.samples@.len(),
            forall|i: int|
                0 <= i < store.samples@.len() ==> (#[trigger] r->Ok_0@[i]).id@
                    == store.samples@[i].key@ && r->Ok_0@[i].data == store.samples@[i].info,
    {
        let mut out: Vec<StringIdentified<SampleInfo>> = Vec::new();
        let mut i: usize = 0;
        while i < store.samples.len()
            invariant
                i <= store.samples@.len(),
                out@.len() == i,
                forall|k: int|
                    0 <= k < i ==> (#[trigger] out@[k]).id@ == store.samples@[k].key@
                        && out@[k].data == store.samples@[k].info,
            decreases store.samples@.len() - i,
        {
            let row = &store.samples[i];
            out.push(Identified::new(row.key.clone(), row.info.duplicate()));
            i = i + 1;
        }
        Result::Ok(out)
    }

    /// Deletes a sample, unless a relation edge still targets it: then the
    /// deletion is refused with `false` and nothing changes. On deletion
    /// the blob goes too where it exists; a blob already gone is not an
    /// error.
    pub fn delete(&self, store: &mut Store, files: &mut FileStorage, id: String) -> (r: Result<
        bool,
        RepoError,
    >)
        requires
            old(store).wf(),
        ensures
            final(store).wf(),
            r is Ok,
            r->Ok_0 == !sample_linked(old(store).experiment_samples@, id@),
            sample_linked(old(store).experiment_samples@, id@) ==> *final(store) == *old(store)
                && *final(files) == *old(files),
            !sample_linked(old(store).experiment_samples@, id@) ==> ({
                &&& final(store).samples@ == crate::store::without_sample(
                    old(store).samples@,
                    id@,
                )
                &&& final(store).next_key == old(store).next_key
                &&& final(store).experiments == old(store).experiments
                &&& final(store).experiment_samples == old(store).experiment_samples
                &&& final(store).results == old(store).results
                &&& final(store).sample_results == old(store).sample_results
                &&& final(store).users == old(store).users
                &&& final(files).folder == old(files).folder
                &&& if last_segment(id@).len() > 0 && blob_at(
                    old(files).entries@,
                    last_segment(id@),
                ) is Some {
                    final(files).entries@ == old(files).entries@.remove(
                        blob_index(old(files).entries@, last_segment(id@)),
                    )
                } else {
                    *final(files) == *old(files)
                }
            }),
    {
        if sample_is_linked(&store.experiment_samples, id.as_str()) {
            return Result::Ok(false);
        }
        // a blob that is already gone is tolerated; the model blob store
        // reports nothing but not-found on delete
        let _ = files.delete(id.as_str());
        let remaining = retain_samples(&store.samples, id.as_str());
        store.samples = remaining;
        Result::Ok(true)
    }

    /// Hands back the blob stored for a sample.
    pub fn data(&self, files: &FileStorage, id: String) -> (r: Result<Vec<u8>, RepoError>)
        ensures
            r is Ok <==> last_segment(id@).len() > 0 && blob_at(
                files.entries@,
                last_segment(id@),
            ) is Some,
            r is Ok ==> Option::Some(r->Ok_0@) == blob_at(files.entries@, last_segment(id@)),
            r is Err ==> r->Err_0 == RepoError::FileStorage(FsError::NotFound),
    {
        match files.get(id.as_str()) {
            Result::Ok(data) => Result::Ok(data),
            Result::Err(e) => Result::Err(RepoError::FileStorage(e)),
        }
    }
}

/// An appended row occupies the name index exactly when its own name or an
/// earlier one matches.
proof fn lemma_sample_named_push(rows: Seq<SampleRow>, row: SampleRow, name: Seq<char>)
    ensures
        sample_named(rows.push(row), name) == (sample_named(rows, name) || row.info.name@
            == name),
    decreases rows.len(),
{
    if rows.len() == 0 {
        assert(rows.push(row)[0] == row);
        assert(rows.push(row).drop_first() =~= Seq::<SampleRow>::empty());
        assert(!sample_named(Seq::<SampleRow>::empty(), name));
    } else {
        lemma_sample_named_push(rows.drop_first(), row, name);
        assert(rows.push(row)[0] == rows[0]);
        assert(rows.push(row).drop_first() =~= rows.drop_first().push(row));
    }
}

/// Uniqueness conflict: once a creation stores a name, the name index is
/// occupied, so a second creation under the same name is refused; and
/// every refusal of that structured shape classifies as a uniqueness
/// violation.
pub proof fn lemma_created_name_occupies_index(pre: Store, post: Store, info: SampleInfo)
    requires
        sample_created(pre, post, info),
    ensures
        sample_named(post.samples@, info.name@),
        forall|e: crate::errors::DriverError|
            e is IndexExists ==> #[trigger] crate::errors::spec_non_unique(e),
{
    lemma_sample_named_push(pre.samples@, post.samples@.last(), info.name@);
}

/// An appended edge links a sample exactly when it targets it or an
/// earlier edge does.
proof fn lemma_sample_linked_push(
    edges: Seq<crate::store::ExperimentSampleEdge>,
    edge: crate::store::ExperimentSampleEdge,
    sample: Seq<char>,
)
    ensures
        sample_linked(edges.push(edge), sample) == (sample_linked(edges, sample)
            || edge.sample@ == sample),
    decreases edges.len(),
{
    if edges.len() == 0 {
        assert(edges.push(edge)[0] == edge);
        assert(edges.push(edge).drop_first()
            =~= Seq::<crate::store::ExperimentSampleEdge>::empty());
        assert(!sample_linked(Seq::<crate::store::ExperimentSampleEdge>::empty(), sample));
    } else {
        lemma_sample_linked_push(edges.drop_first(), edge, sample);
        assert(edges.push(edge)[0] == edges[0]);
        assert(edges.push(edge).drop_first() =~= edges.drop_first().push(edge));
    }
}

/// The protection lifts with the relation: when every edge that targets a
/// sample belongs to one experiment, deleting that experiment leaves the
/// sample unprotected, and its deletion then goes through.
pub proof fn lemma_unlinked_after_experiment_delete(
    edges: Seq<crate::store::ExperimentSampleEdge>,
    exp: Seq<char>,
    sample: Seq<char>,
)
    requires
        forall|i: int|
            0 <= i < edges.len() ==> ((#[trigger] edges[i]).sample@ == sample ==> edges[i].experiment@
                == exp),
    ensures
        !sample_linked(crate::store::without_experiment_edges(edges, exp), sample),
    decreases edges.len(),
{
    if edges.len() > 0 {
        let front = edges.drop_last();
        assert(forall|i: int| 0 <= i < front.len() ==> (#[trigger] front[i]) == edges[i]);
        lemma_unlinked_after_experiment_delete(front, exp, sample);
        if edges.last().experiment@ != exp {
            assert(edges[edges.len() - 1].sample@ != sample);
            lemma_sample_linked_push(
                crate::store::without_experiment_edges(front, exp),
                edges.last(),
                sample,
            );
        }
    }
}

/// After a successful protected delete the sample is gone: a lookup of the
/// deleted identifier finds nothing.
pub proof fn lemma_deleted_sample_not_found(rows: Seq<SampleRow>, key: Seq<char>)
    ensures
        find_sample(crate::store::without_sample(rows, key), key) is None,
    decreases rows.len(),
{
    if rows.len() > 0 {
        lemma_deleted_sample_not_found(rows.drop_last(), key);
        let front = crate::store::without_sample(rows.drop_last(), key);
        if rows.last().key@ != key {
            lemma_find_sample_push(front, rows.last(), key);
        }
    }
}

/// Appending a row with another key does not change a lookup that finds
/// nothing.
proof fn lemma_find_sample_push(rows: Seq<SampleRow>, row: SampleRow, key: Seq<char>)
    requires
        find_sample(rows, key) is None,
        row.key@ != key,
    ensures
        find_sample(rows.push(row), key) is None,
    decreases rows.len(),
{
    if rows.len() == 0 {
        assert(rows.push(row)[0] == row);
        assert(rows.push(row).drop_first() =~= Seq::<SampleRow>::empty());
        assert(find_sample(Seq::<SampleRow>::empty(), key) is None);
    } else {
        lemma_find_sample_push(rows.drop_first(), row, key);
        assert(rows.push(row)[0] == rows[0]);
        assert(rows.push(row).drop_first() =~= rows.drop_first().push(row));
    }
}

/// Appending a row only extends what a lookup can find: an earlier match
/// stays, and a fresh match can only be the appended row itself.
proof fn lemma_find_sample_push_general(rows: Seq<SampleRow>, row: SampleRow, key: Seq<char>)
    ensures
        find_sample(rows.push(row), key) == if find_sample(rows, key) is Some {
            find_sample(rows, key)
        } else if row.key@ == key {
            Option::Some(row)
        } else {
            Option::None::<SampleRow>
        },
    decreases rows.len(),
{
    if rows.len() == 0 {
        assert(rows.push(row)[0] == row);
        assert(rows.push(row).drop_first() =~= Seq::<SampleRow>::empty());
        assert(find_sample(Seq::<SampleRow>::empty(), key) is None);
    } else {
        lemma_find_sample_push_general(rows.drop_first(), row, key);
        assert(rows.push(row)[0] == rows[0]);
        assert(rows.push(row).drop_first() =~= rows.drop_first().push(row));
    }
}

/// Deleting one sample leaves every other lookup as it was: the protected
/// delete removes exactly the named sample.
pub proof fn lemma_delete_keeps_other_samples(
    rows: Seq<SampleRow>,
    key: Seq<char>,
    other: Seq<char>,
)
    requires
        key != other,
    ensures
        find_sample(crate::store::without_sample(rows, key), other) == find_sample(rows, other),
    decreases rows.len(),
{
    if rows.len() > 0 {
        let front = rows.drop_last();
        lemma_delete_keeps_other_samples(front, key, other);
        lemma_find_sample_push_general(front, rows.last(), other);
        assert(rows =~= front.push(rows.last()));
        if rows.last().key@ != key {
            lemma_find_sample_push_general(
                crate::store::without_sample(front, key),
                rows.last(),
                other,
            );
        } else {
            assert(rows.last().key@ != other);
        }
    }
}

} // verus!
