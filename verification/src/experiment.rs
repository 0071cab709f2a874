//! The experiment repository: creates an experiment together with its
//! relation edges to existing samples in one atomic step — when any named
//! sample is missing, nothing persists. Reads return the row together with
//! the derived listing of linked sample identifiers; results are recorded
//! per experiment with one outcome edge per sample.

use vstd::prelude::*;

use crate::errors::{DbError, DriverError, RepoError};
use crate::ident::{Identified, StringIdentified};
use crate::store::{edge_exists, edge_present, find_experiment, find_experiment_index,
    find_sample, find_sample_index, fresh_key, lemma_fresh_key_unused,
    lemma_outcomes_of_absent, lemma_outcomes_of_concat, lemma_sample_ids_of_absent,
    lemma_sample_ids_of_concat, outcomes_of, results_of, retain_experiment_edges,
    retain_experiment_outcomes, retain_experiments, sample_ids_of, without_experiment,
    without_experiment_edges, without_experiment_outcomes, Experiment, ExperimentResult,
    ExperimentRow, ExperimentSampleEdge, ResultRow, SampleResult, SampleResultEdge, SampleRow,
    Store};
use crate::text::{decimal_chars, str_eq};

verus! {

/// The per-request repository for experiments; it borrows the shared store
/// on each call.
pub struct ExperimentRepository {}

/// Every named sample identifier resolves to an existing sample row.
pub open spec fn all_samples_present(rows: Seq<SampleRow>, ids: Seq<String>) -> bool {
    forall|i: int| 0 <= i < ids.len() ==> find_sample(rows, (#[trigger] ids[i])@) is Some
}

/// Every named sample is linked from `exp` by an existing relation edge.
pub open spec fn all_edges_present(
    edges: Seq<ExperimentSampleEdge>,
    exp: Seq<char>,
    srs: Seq<SampleResult>,
) -> bool {
    forall|i: int| 0 <= i < srs.len() ==> edge_exists(edges, exp, (#[trigger] srs[i]).sample_id@)
}

/// `post` is `pre` with one new experiment row and one edge per named
/// sample, in naming order, everything else untouched.
pub open spec fn experiment_created(pre: Store, post: Store, experiment: Experiment) -> bool {
    let row = post.experiments@.last();
    let ids = experiment.sample_ids@;
    &&& post.experiments@ == pre.experiments@.push(row)
    &&& row.key_num == pre.next_key
    &&& row.key@ == decimal_chars(pre.next_key as nat)
    &&& row.name == experiment.name
    &&& row.is_public == experiment.is_public
    &&& post.next_key == pre.next_key + 1
    &&& post.experiment_samples@.len() == pre.experiment_samples@.len() + ids.len()
    &&& post.experiment_samples@.take(pre.experiment_samples@.len() as int)
        == pre.experiment_samples@
    &&& forall|j: int|
        0 <= j < ids.len() ==> ({
            let e = #[trigger] post.experiment_samples@[pre.experiment_samples@.len() + j];
            e.experiment_num == pre.next_key && e.experiment@ == row.key@ && e.sample@
                == ids[j]@
        })
    &&& post.samples == pre.samples
    &&& post.results == pre.results
    &&& post.sample_results == pre.sample_results
    &&& post.users == pre.users
}

/// `item` is the read view of `row`: its identifier, its fields, and the
/// derived listing of linked sample identifiers.
pub open spec fn experiment_view(
    row: ExperimentRow,
    item: StringIdentified<Experiment>,
    edges: Seq<ExperimentSampleEdge>,
) -> bool {
    &&& item.id@ == row.key@
    &&& item.data.name == row.name
    &&& item.data.is_public == row.is_public
    &&& item.data.sample_ids@.len() == sample_ids_of(edges, row.key@).len()
    &&& forall|j: int|
        0 <= j < item.data.sample_ids@.len() ==> (#[trigger] item.data.sample_ids@[j])@
            == sample_ids_of(edges, row.key@)[j]
}

/// The experiment rows marked public, in row order.
pub open spec fn public_experiments(rows: Seq<ExperimentRow>) -> Seq<ExperimentRow>
    decreases rows.len(),
{
    if rows.len() == 0 {
        Seq::empty()
    } else {
        let front = public_experiments(rows.drop_last());
        if rows.last().is_public {
            front.push(rows.last())
        } else {
            front
        }
    }
}

/// `post` is `pre` with one new result row for `exp_id` and one outcome
/// edge per named sample, in naming order, everything else untouched.
pub open spec fn result_created(
    pre: Store,
    post: Store,
    exp_id: Seq<char>,
    result: ExperimentResult,
) -> bool {
    let row = post.results@.last();
    let srs = result.sample_results@;
    &&& post.results@ == pre.results@.push(row)
    &&& row.key_num == pre.next_key
    &&& row.key@ == decimal_chars(pre.next_key as nat)
    &&& row.experiment_id@ == exp_id
    &&& row.training == result.training
    &&& row.user == result.user
    &&& post.next_key == pre.next_key + 1
    &&& post.sample_results@.len() == pre.sample_results@.len() + srs.len()
    &&& post.sample_results@.take(pre.sample_results@.len() as int) == pre.sample_results@
    &&& forall|j: int|
        0 <= j < srs.len() ==> ({
            let oc = #[trigger] post.sample_results@[pre.sample_results@.len() + j];
            oc.result_num == pre.next_key && oc.result@ == row.key@ && oc.experiment@ == exp_id
                && oc.sample@ == srs[j].sample_id@ && oc.azimuth_bits == srs[j].azimuth_bits
                && oc.elevation_bits == srs[j].elevation_bits
        })
    &&& post.samples == pre.samples
    &&& post.experiments == pre.experiments
    &&& post.experiment_samples == pre.experiment_samples
    &&& post.users == pre.users
}

/// `item` is the read view of result `row`: its identifier, its fields,
/// and the derived listing of per-sample outcomes.
pub open spec fn result_view(
    row: ResultRow,
    item: StringIdentified<ExperimentResult>,
    edges: Seq<SampleResultEdge>,
) -> bool {
    &&& item.id@ == row.key@
    &&& item.data.training == row.training
    &&& item.data.user == row.user
    &&& item.data.sample_results@.len() == outcomes_of(edges, row.key@).len()
    &&& forall|j: int|
        0 <= j < item.data.sample_results@.len() ==> ({
            let sr = #[trigger] item.data.sample_results@[j];
            let oc = outcomes_of(edges, row.key@)[j];
            sr.sample_id@ == oc.sample@ && sr.azimuth_bits == oc.azimuth_bits
                && sr.elevation_bits == oc.elevation_bits
        })
}

/// Decides whether every named sample exists.
fn samples_present(rows: &Vec<SampleRow>, ids: &Vec<String>) -> (r: bool)
    ensures
        r == all_samples_present(rows@, ids@),
{
    let mut i: usize = 0;
    while i < ids.len()
        invariant
            i <= ids@.len(),
            forall|k: int| 0 <= k < i ==> find_sample(rows@, (#[trigger] ids@[k])@) is Some,
        decreases ids@.len() - i,
    {
        match find_sample_index(rows, ids[i].as_str()) {
            Option::Some(_) => {},
            Option::None => {
                return false;
            },
        }
        i = i + 1;
    }
    true
}

/// Decides whether every named sample is linked from `exp`.
fn edges_present(edges: &Vec<ExperimentSampleEdge>, exp: &str, srs: &Vec<SampleResult>) -> (r:
    bool)
    ensures
        r == all_edges_present(edges@, exp@, srs@),
{
    let mut i: usize = 0;
    while i < srs.len()
        invariant
            i <= srs@.len(),
            forall|k: int|
                0 <= k < i ==> edge_exists(edges@, exp@, (#[trigger] srs@[k]).sample_id@),
        decreases srs@.len() - i,
    {
        if !edge_present(edges, exp, srs[i].sample_id.as_str()) {
            return false;
        }
        i = i + 1;
    }
    true
}

/// Collects the outcomes recorded for result `key`, in edge order.
fn collect_outcomes(edges: &Vec<SampleResultEdge>, key: &str) -> (r: Vec<SampleResult>)
    ensures
        r@.len() == outcomes_of(edges@, key@).len(),
        forall|j: int|
            0 <= j < r@.len() ==> ({
                let sr = #[trigger] r@[j];
                let oc = outcomes_of(edges@, key@)[j];
                sr.sample_id@ == oc.sample@ && sr.azimuth_bits == oc.azimuth_bits
                    && sr.elevation_bits == oc.elevation_bits
            }),
{
    let mut out: Vec<SampleResult> = Vec::new();
    let mut i: usize = 0;
    while i < edges.len()
        invariant
            i <= edges@.len(),
            out@.len() == outcomes_of(edges@.take(i as int), key@).len(),
            forall|j: int|
                0 <= j < out@.len() ==> ({
                    let sr = #[trigger] out@[j];
                    let oc = outcomes_of(edges@.take(i as int), key@)[j];
                    sr.sample_id@ == oc.sample@ && sr.azimuth_bits == oc.azimuth_bits
                        && sr.elevation_bits == oc.elevation_bits
                }),
        decreases edges@.len() - i,
    {
        proof {
            assert(edges@.take(i + 1).drop_last() =~= edges@.take(i as int));
            assert(edges@.take(i + 1).last() == edges@[i as int]);
        }
        if str_eq(edges[i].result.as_str(), key) {
            let e = &edges[i];
            out.push(
                SampleResult {
                    sample_id: e.sample.clone(),
                    azimuth_bits: e.azimuth_bits,
                    elevation_bits: e.elevation_bits,
                },
            );
        }
        i = i + 1;
    }
    proof {
        assert(edges@.take(i as int) =~= edges@);
    }
    out
}

impl ExperimentRepository {
    /// Creates an experiment and its relation edges atomically: when any
    /// named sample is missing, the whole creation fails inside the
    /// transaction and nothing persists, the primary row included. On
    /// success the composed result is read back in the same transaction.
    pub fn create(&self, store: &mut Store, experiment: Experiment) -> (r: Result<
        StringIdentified<Experiment>,
        RepoError,
    >)
        requires
            old(store).wf(),
            old(store).next_key < u64::MAX,
        ensures
            final(store).wf(),
            r is Ok <==> all_samples_present(old(store).samples@, experiment.sample_ids@),
            r is Err ==> *final(store) == *old(store) && (r->Err_0 matches RepoError::Database(
                DbError::Query(DriverError::QueryFailure(msg)),
            ) && msg@ == "relation target record does not exist"@),
            r is Ok ==> experiment_created(*old(store), *final(store), experiment),
            r is Ok ==> ({
                let row = final(store).experiments@.last();
                let item = r->Ok_0;
                &&& item.id@ == row.key@
                &&& item.data.name == experiment.name
                &&& item.data.is_public == experiment.is_public
                &&& item.data.sample_ids@.len() == experiment.sample_ids@.len()
                &&& forall|j: int|
                    0 <= j < experiment.sample_ids@.len() ==> (
                    #[trigger] item.data.sample_ids@[j])@ == experiment.sample_ids@[j]@
                &&& experiment_view(row, item, final(store).experiment_samples@)
            }),
    {
        if !samples_present(&store.samples, &experiment.sample_ids) {
            return Result::Err(
                RepoError::Database(
                    DbError::Query(
                        DriverError::QueryFailure(
                            String::from_str("relation target record does not exist"),
                        ),
                    ),
                ),
            );
        }
        proof {
            lemma_fresh_key_unused(*store);
        }
        let (num, key) = fresh_key(store);
        let row = ExperimentRow {
            key_num: num,
            key: key.clone(),
            name: experiment.name.clone(),
            is_public: experiment.is_public,
        };
        store.experiments.push(row);
        let ghost mid = *store;
        let ghost pre_edges = store.experiment_samples@;
        let mut result_ids: Vec<String> = Vec::new();
        let mut i: usize = 0;
        while i < experiment.sample_ids.len()
            invariant
                i <= experiment.sample_ids@.len(),
                store.samples == mid.samples,
                store.experiments == mid.experiments,
                store.results == mid.results,
                store.sample_results == mid.sample_results,
                store.users == mid.users,
                store.next_key == mid.next_key,
                pre_edges == mid.experiment_samples@,
                store.experiment_samples@.len() == pre_edges.len() + i,
                store.experiment_samples@.take(pre_edges.len() as int) == pre_edges,
                forall|j: int|
                    0 <= j < i ==> ({
                        let e = #[trigger] store.experiment_samples@[pre_edges.len() + j];
                        e.experiment_num == num && e.experiment@ == key@ && e.sample@
                            == experiment.sample_ids@[j]@
                    }),
                result_ids@.len() == i,
                forall|j: int|
                    0 <= j < i ==> (#[trigger] result_ids@[j])@ == experiment.sample_ids@[j]@,
            decreases experiment.sample_ids@.len() - i,
        {
            let sid = experiment.sample_ids[i].clone();
            store.experiment_samples.push(
                ExperimentSampleEdge {
                    experiment_num: num,
                    experiment: key.clone(),
                    sample: sid.clone(),
                },
            );
            result_ids.push(sid);
            proof {
                assert(store.experiment_samples@.take(pre_edges.len() as int) =~= pre_edges);
            }
            i = i + 1;
        }
        proof {
            let post_edges = store.experiment_samples@;
            let added = post_edges.skip(pre_edges.len() as int);
            assert(post_edges =~= pre_edges + added);
            assert forall|j: int| 0 <= j < added.len() implies (
            #[trigger] added[j]).experiment@ == key@ by {
                assert(added[j] == post_edges[pre_edges.len() + j]);
            }
            lemma_sample_ids_of_concat(pre_edges, added, key@);
            lemma_sample_ids_of_absent(pre_edges, key@);
            assert(sample_ids_of(post_edges, key@) =~= sample_ids_of(added, key@));
            lemma_new_edges_listing(added, key@);
            assert forall|j: int| 0 <= j < result_ids@.len() implies (
            #[trigger] result_ids@[j])@ == sample_ids_of(post_edges, key@)[j] by {
                assert(added[j] == post_edges[pre_edges.len() + j]);
                assert(sample_ids_of(added, key@)[j] == added[j].sample@);
            }
            assert forall|i: int| 0 <= i < store.experiments@.len() implies ((
            #[trigger] store.experiments@[i]).key@ == decimal_chars(
                store.experiments@[i].key_num as nat,
            ) && store.experiments@[i].key_num < store.next_key) by {
                if i < store.experiments@.len() - 1 {
                    assert(store.experiments@[i] == old(store).experiments@[i]);
                }
            }
            assert forall|i: int| 0 <= i < store.experiment_samples@.len() implies ((
            #[trigger] store.experiment_samples@[i]).experiment@ == decimal_chars(
                store.experiment_samples@[i].experiment_num as nat,
            ) && store.experiment_samples@[i].experiment_num < store.next_key) by {
                if i < pre_edges.len() {
                    assert(store.experiment_samples@[i] == store.experiment_samples@.take(
                        pre_edges.len() as int,
                    )[i]);
                    assert(pre_edges[i] == old(store).experiment_samples@[i]);
                } else {
                    let j = i - pre_edges.len();
                    assert(store.experiment_samples@[pre_edges.len() + j]
                        == store.experiment_samples@[i]);
                }
            }
        }
        Result::Ok(Identified::new(key, Experiment {
            name: experiment.name,
            sample_ids: result_ids,
            is_public: experiment.is_public,
        }))
    }

    /// Reads one experiment with its derived sample listing; a missing
    /// identifier is the typed not-found failure.
    pub fn info(&self, store: &Store, experiment_id: String) -> (r: Result<
        StringIdentified<Experiment>,
        RepoError,
    >)
        ensures
            r is Ok <==> find_experiment(store.experiments@, experiment_id@) is Some,
            r is Ok ==> experiment_view(
                find_experiment(store.experiments@, experiment_id@)->Some_0,
                r->Ok_0,
                store.experiment_samples@,
            ),
            r is Err ==> r->Err_0 == RepoError::Database(DbError::NotFound),
    {
        match find_experiment_index(&store.experiments, experiment_id.as_str()) {
            Option::Some(i) => {
                let row = &store.experiments[i];
                let ids = crate::store::collect_sample_ids(
                    &store.experiment_samples,
                    row.key.as_str(),
                );
                Result::Ok(
                    Identified::new(
                        row.key.clone(),
                        Experiment {
                            name: row.name.clone(),
                            sample_ids: ids,
                            is_public: row.is_public,
                        },
                    ),
                )
            },
            Option::None => Result::Err(RepoError::Database(DbError::NotFound)),
        }
    }

    /// Lists every experiment with its derived sample listing; an empty
    /// store gives an empty listing, never an error.
    pub fn infos(&self, store: &Store) -> (r: Result<
        Vec<StringIdentified<Experiment>>,
        RepoError,
    >)
        ensures
            r is Ok,
            r->Ok_0@.len() == store.experiments@.len(),
            forall|i: int|
                0 <= i < store.experiments@.len() ==> experiment_view(
                    store.experiments@[i],
                    #[trigger] r->Ok_0@[i],
                    store.experiment_samples@,
                ),
    {
        let mut out: Vec<StringIdentified<Experiment>> = Vec::new();
        let mut i: usize = 0;
        while i < store.experiments.len()
            invariant
                i <= store.experiments@.len(),
                out@.len() == i,
                forall|k: int|
                    0 <= k < i ==> experiment_view(
                        store.experiments@[k],
                        #[trigger] out@[k],
                        store.experiment_samples@,
                    ),
            decreases store.experiments@.len() - i,
        {
            let row = &store.experiments[i];
            let ids = crate::store::collect_sample_ids(
                &store.experiment_samples,
                row.key.as_str(),
            );
            out.push(
                Identified::new(
                    row.key.clone(),
                    Experiment {
                        name: row.name.clone(),
                        sample_ids: ids,
                        is_public: row.is_public,
                    },
                ),
            );
            i = i + 1;
        }
        Result::Ok(out)
    }

    /// Lists the public experiments with their derived sample listings.
    pub fn public_infos(&self, store: &Store) -> (r: Result<
        Vec<StringIdentified<Experiment>>,
        RepoError,
    >)
        ensures
            r is Ok,
            r->Ok_0@.len() == public_experiments(store.experiments@).len(),
            forall|i: int|
                0 <= i < r->Ok_0@.len() ==> experiment_view(
                    public_experiments(store.experiments@)[i],
                    #[trigger] r->Ok_0@[i],
                    store.experiment_samples@,
                ),
    {
        let mut out: Vec<StringIdentified<Experiment>> = Vec::new();
        let mut i: usize = 0;
        while i < store.experiments.len()
            invariant
                i <= store.experiments@.len(),
                out@.len() == public_experiments(store.experiments@.take(i as int)).len(),
                forall|k: int|
                    0 <= k < out@.len() ==> experiment_view(
                        public_experiments(store.experiments@.take(i as int))[k],
                        #[trigger] out@[k],
                        store.experiment_samples@,
                    ),
            decreases store.experiments@.len() - i,
        {
            proof {
                assert(store.experiments@.take(i + 1).drop_last() =~= store.experiments@.take(
                    i as int,
                ));
                assert(store.experiments@.take(i + 1).last() == store.experiments@[i as int]);
            }
            let row = &store.experiments[i];
            if row.is_public {
                let ids = crate::store::collect_sample_ids(
                    &store.experiment_samples,
                    row.key.as_str(),
                );
                out.push(
                    Identified::new(
                        row.key.clone(),
                        Experiment {
                            name: row.name.clone(),
                            sample_ids: ids,
                            is_public: row.is_public,
                        },
                    ),
                );
            }
            i = i + 1;
        }
        proof {
            assert(store.experiments@.take(store.experiments@.len() as int)
                =~= store.experiments@);
        }
        Result::Ok(out)
    }

    /// Records a result for an experiment atomically: every named sample
    /// must be linked to the experiment; otherwise nothing persists, the
    /// result row included.
    pub fn create_result(
        &self,
        store: &mut Store,
        experiment_id: String,
        result: ExperimentResult,
    ) -> (r: Result<StringIdentified<ExperimentResult>, RepoError>)
        requires
            old(store).wf(),
            old(store).next_key < u64::MAX,
        ensures
            final(store).wf(),
            r is Ok <==> all_edges_present(
                old(store).experiment_samples@,
                experiment_id@,
                result.sample_results@,
            ),
            r is Err ==> *final(store) == *old(store) && (r->Err_0 matches RepoError::Database(
                DbError::Query(DriverError::QueryFailure(msg)),
            ) && msg@ == "relation target record does not exist"@),
            r is Ok ==> result_created(*old(store), *final(store), experiment_id@, result),
            r is Ok ==> ({
                let row = final(store).results@.last();
                let item = r->Ok_0;
                &&& item.id@ == row.key@
                &&& item.data.training == result.training
                &&& item.data.user == result.user
                &&& item.data.sample_results@.len() == result.sample_results@.len()
                &&& result_view(row, item, final(store).sample_results@)
            }),
    {
        if !edges_present(
            &store.experiment_samples,
            experiment_id.as_str(),
            &result.sample_results,
        ) {
            return Result::Err(
                RepoError::Database(
                    DbError::Query(
                        DriverError::QueryFailure(
                            String::from_str("relation target record does not exist"),
                        ),
                    ),
                ),
            );
        }
        proof {
            lemma_fresh_key_unused(*store);
        }
        let (num, key) = fresh_key(store);
        let row = ResultRow {
            key_num: num,
            key: key.clone(),
            experiment_id: experiment_id.clone(),
            training: result.training,
            user: result.user.clone(),
        };
        store.results.push(row);
        let ghost mid = *store;
        let ghost pre_edges = store.sample_results@;
        let mut returned: Vec<SampleResult> = Vec::new();
        let mut i: usize = 0;
        while i < result.sample_results.len()
            invariant
                i <= result.sample_results@.len(),
                store.samples == mid.samples,
                store.experiments == mid.experiments,
                store.results == mid.results,
                store.experiment_samples == mid.experiment_samples,
                store.users == mid.users,
                store.next_key == mid.next_key,
                pre_edges == mid.sample_results@,
                store.sample_results@.len() == pre_edges.len() + i,
                store.sample_results@.take(pre_edges.len() as int) == pre_edges,
                forall|j: int|
                    0 <= j < i ==> ({
                        let oc = #[trigger] store.sample_results@[pre_edges.len() + j];
                        oc.result_num == num && oc.result@ == key@ && oc.experiment@
                            == experiment_id@ && oc.sample@
                            == result.sample_results@[j].sample_id@ && oc.azimuth_bits
                            == result.sample_results@[j].azimuth_bits && oc.elevation_bits
                            == result.sample_results@[j].elevation_bits
                    }),
                returned@.len() == i,
                forall|j: int|
                    0 <= j < i ==> ({
                        let sr = #[trigger] returned@[j];
                        sr.sample_id@ == result.sample_results@[j].sample_id@ && sr.azimuth_bits
                            == result.sample_results@[j].azimuth_bits && sr.elevation_bits
                            == result.sample_results@[j].elevation_bits
                    }),
            decreases result.sample_results@.len() - i,
        {
            let sr = &result.sample_results[i];
            store.sample_results.push(
                SampleResultEdge {
                    result_num: num,
                    result: key.clone(),
                    experiment: experiment_id.clone(),
                    sample: sr.sample_id.clone(),
                    azimuth_bits: sr.azimuth_bits,
                    elevation_bits: sr.elevation_bits,
                },
            );
            returned.push(
                SampleResult {
                    sample_id: sr.sample_id.clone(),
                    azimuth_bits: sr.azimuth_bits,
                    elevation_bits: sr.elevation_bits,
                },
            );
            proof {
                assert(store.sample_results@.take(pre_edges.len() as int) =~= pre_edges);
            }
            i = i + 1;
        }
        proof {
            let post_edges = store.sample_results@;
            let added = post_edges.skip(pre_edges.len() as int);
            assert(post_edges =~= pre_edges + added);
            assert forall|j: int| 0 <= j < added.len() implies (#[trigger] added[j]).result@
                == key@ by {
                assert(added[j] == post_edges[pre_edges.len() + j]);
            }
            lemma_outcomes_of_concat(pre_edges, added, key@);
            lemma_outcomes_of_absent(pre_edges, key@);
            assert(outcomes_of(post_edges, key@) =~= outcomes_of(added, key@));
            lemma_new_outcomes_listing(added, key@);
            assert forall|j: int| 0 <= j < returned@.len() implies ({
                let sr = #[trigger] returned@[j];
                let oc = outcomes_of(post_edges, key@)[j];
                sr.sample_id@ == oc.sample@ && sr.azimuth_bits == oc.azimuth_bits
                    && sr.elevation_bits == oc.elevation_bits
            }) by {
                assert(added[j] == post_edges[pre_edges.len() + j]);
                assert(outcomes_of(added, key@)[j] == added[j]);
            }
            assert forall|i: int| 0 <= i < store.results@.len() implies ((
            #[trigger] store.results@[i]).key@ == decimal_chars(
                store.results@[i].key_num as nat,
            ) && store.results@[i].key_num < store.next_key) by {
                if i < store.results@.len() - 1 {
                    assert(store.results@[i] == old(store).results@[i]);
                }
            }
            assert forall|i: int| 0 <= i < store.sample_results@.len() implies ((
            #[trigger] store.sample_results@[i]).result@ == decimal_chars(
                store.sample_results@[i].result_num as nat,
            ) && store.sample_results@[i].result_num < store.next_key) by {
                if i < pre_edges.len() {
                    assert(store.sample_results@[i] == store.sample_results@.take(
                        pre_edges.len() as int,
                    )[i]);
                    assert(pre_edges[i] == old(store).sample_results@[i]);
                } else {
                    let j = i - pre_edges.len();
                    assert(store.sample_results@[pre_edges.len() + j]
                        == store.sample_results@[i]);
                }
            }
        }
        Result::Ok(Identified::new(key, ExperimentResult {
            training: result.training,
            user: result.user,
            sample_results: returned,
        }))
    }

    /// Lists the results recorded for an experiment, each with its derived
    /// outcome listing; an unknown experiment gives an empty listing.
    pub fn results(&self, store: &Store, experiment_id: String) -> (r: Result<
        Vec<StringIdentified<ExperimentResult>>,
        RepoError,
    >)
        ensures
            r is Ok,
            r->Ok_0@.len() == results_of(store.results@, experiment_id@).len(),
            forall|i: int|
                0 <= i < r->Ok_0@.len() ==> result_view(
                    results_of(store.results@, experiment_id@)[i],
                    #[trigger] r->Ok_0@[i],
                    store.sample_results@,
                ),
    {
        let mut out: Vec<StringIdentified<ExperimentResult>> = Vec::new();
        let mut i: usize = 0;
        while i < store.results.len()
            invariant
                i <= store.results@.len(),
                out@.len() == results_of(store.results@.take(i as int), experiment_id@).len(),
                forall|k: int|
                    0 <= k < out@.len() ==> result_view(
                        results_of(store.results@.take(i as int), experiment_id@)[k],
                        #[trigger] out@[k],
                        store.sample_results@,
                    ),
            decreases store.results@.len() - i,
        {
            proof {
                assert(store.results@.take(i + 1).drop_last() =~= store.results@.take(i as int));
                assert(store.results@.take(i + 1).last() == store.results@[i as int]);
            }
            let row = &store.results[i];
            if str_eq(row.experiment_id.as_str(), experiment_id.as_str()) {
                let outcomes = collect_outcomes(&store.sample_results, row.key.as_str());
                out.push(
                    Identified::new(
                        row.key.clone(),
                        ExperimentResult {
                            training: row.training,
                            user: row.user.clone(),
                            sample_results: outcomes,
                        },
                    ),
                );
            }
            i = i + 1;
        }
        proof {
            assert(store.results@.take(store.results@.len() as int) =~= store.results@);
        }
        Result::Ok(out)
    }

    /// Deletes an experiment: the row goes, its relation edges go with it,
    /// and so do the outcome edges that hung off those relations. Deleting
    /// an unknown identifier deletes nothing and is no error.
    pub fn delete(&self, store: &mut Store, experiment_id: String) -> (r: Result<(), RepoError>)
        requires
            old(store).wf(),
        ensures
            final(store).wf(),
            r is Ok,
            final(store).experiments@ == without_experiment(
                old(store).experiments@,
                experiment_id@,
            ),
            final(store).experiment_samples@ == without_experiment_edges(
                old(store).experiment_samples@,
                experiment_id@,
            ),
            final(store).sample_results@ == without_experiment_outcomes(
                old(store).sample_results@,
                experiment_id@,
            ),
            final(store).next_key == old(store).next_key,
            final(store).samples == old(store).samples,
            final(store).results == old(store).results,
            final(store).users == old(store).users,
    {
        let remaining = retain_experiments(&store.experiments, experiment_id.as_str());
        store.experiments = remaining;
        let edges = retain_experiment_edges(&store.experiment_samples, experiment_id.as_str());
        store.experiment_samples = edges;
        let outcomes = retain_experiment_outcomes(&store.sample_results, experiment_id.as_str());
        store.sample_results = outcomes;
        Result::Ok(())
    }
}

/// Edges all naming `key` list exactly their samples, in order.
proof fn lemma_new_edges_listing(edges: Seq<ExperimentSampleEdge>, key: Seq<char>)
    requires
        forall|i: int| 0 <= i < edges.len() ==> (#[trigger] edges[i]).experiment@ == key,
    ensures
        sample_ids_of(edges, key).len() == edges.len(),
        forall|i: int|
            0 <= i < edges.len() ==> sample_ids_of(edges, key)[i] == (
            #[trigger] edges[i]).sample@,
    decreases edges.len(),
{
    if edges.len() > 0 {
        let front = edges.drop_last();
        assert(forall|i: int| 0 <= i < front.len() ==> (#[trigger] front[i]) == edges[i]);
        lemma_new_edges_listing(front, key);
        assert(edges[edges.len() - 1].experiment@ == key);
        assert(edges.last() == edges[edges.len() - 1]);
        assert(sample_ids_of(edges, key) == sample_ids_of(front, key).push(
            edges.last().sample@,
        ));
        assert forall|i: int| 0 <= i < edges.len() implies sample_ids_of(edges, key)[i] == (
        #[trigger] edges[i]).sample@ by {
            if i < edges.len() - 1 {
                assert(front[i] == edges[i]);
                assert(sample_ids_of(edges, key)[i] == sample_ids_of(front, key)[i]);
            } else {
                assert(edges[i] == edges.last());
            }
        }
    }
}

/// Outcome edges all naming `key` list exactly themselves, in order.
proof fn lemma_new_outcomes_listing(edges: Seq<SampleResultEdge>, key: Seq<char>)
    requires
        forall|i: int| 0 <= i < edges.len() ==> (#[trigger] edges[i]).result@ == key,
    ensures
        outcomes_of(edges, key).len() == edges.len(),
        forall|i: int|
            0 <= i < edges.len() ==> outcomes_of(edges, key)[i] == edges[i],
    decreases edges.len(),
{
    if edges.len() > 0 {
        let front = edges.drop_last();
        assert(forall|i: int| 0 <= i < front.len() ==> (#[trigger] front[i]) == edges[i]);
        lemma_new_outcomes_listing(front, key);
        assert(edges[edges.len() - 1].result@ == key);
        assert(edges.last() == edges[edges.len() - 1]);
        assert(outcomes_of(edges, key) == outcomes_of(front, key).push(edges.last()));
        assert forall|i: int| 0 <= i < edges.len() implies outcomes_of(edges, key)[i]
            == edges[i] by {
            if i < edges.len() - 1 {
                assert(front[i] == edges[i]);
                assert(outcomes_of(edges, key)[i] == outcomes_of(front, key)[i]);
            } else {
                assert(edges[i] == edges.last());
            }
        }
    }
}

} // verus!
