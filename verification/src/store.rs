//! The store the repository protocol is verified against: the state of the
//! entity tables and relation edges behind one database handle. Record
//! identifiers are assigned by the store at creation time from a counter
//! and never collide; relation edges are created only against rows that
//! exist at edge-creation time.

use vstd::prelude::*;

use crate::text::{decimal_chars, decimal_string, digit_char, lemma_decimal_chars_injective,
    last_segment, str_eq};

verus! {

/// A sample's caller-supplied fields. The two angles carry the raw bit
/// patterns of the caller's floating-point values; the store never reads
/// them.
#[derive(Debug)]
pub struct SampleInfo {
    pub name: String,
    pub azimuth_bits: u32,
    pub elevation_bits: u32,
}

/// An experiment's caller-supplied fields, with the identifiers of the
/// samples it links to.
#[derive(Debug)]
pub struct Experiment {
    pub name: String,
    pub sample_ids: Vec<String>,
    pub is_public: bool,
}

/// One sample's outcome within an experiment result; angles as raw bit
/// patterns.
#[derive(Debug)]
pub struct SampleResult {
    pub sample_id: String,
    pub azimuth_bits: u32,
    pub elevation_bits: u32,
}

/// An experiment result's caller-supplied fields.
#[derive(Debug)]
pub struct ExperimentResult {
    pub training: bool,
    pub user: String,
    pub sample_results: Vec<SampleResult>,
}

/// A stored sample row.
pub struct SampleRow {
    pub key_num: u64,
    pub key: String,
    pub info: SampleInfo,
}

/// A stored experiment row.
pub struct ExperimentRow {
    pub key_num: u64,
    pub key: String,
    pub name: String,
    pub is_public: bool,
}

/// A relation edge from an experiment to a sample.
pub struct ExperimentSampleEdge {
    pub experiment_num: u64,
    pub experiment: String,
    pub sample: String,
}

/// A stored experiment-result row.
pub struct ResultRow {
    pub key_num: u64,
    pub key: String,
    pub experiment_id: String,
    pub training: bool,
    pub user: String,
}

/// A relation edge from an experiment-sample edge to a result, carrying
/// the sample's outcome.
pub struct SampleResultEdge {
    pub result_num: u64,
    pub result: String,
    pub experiment: String,
    pub sample: String,
    pub azimuth_bits: u32,
    pub elevation_bits: u32,
}

/// A stored user row; its key is chosen by the caller, not generated.
pub struct UserRow {
    pub key: String,
    pub username: String,
    pub password_hash: String,
}

/// The state behind one database handle.
pub struct Store {
    pub next_key: u64,
    pub samples: Vec<SampleRow>,
    pub experiments: Vec<ExperimentRow>,
    pub experiment_samples: Vec<ExperimentSampleEdge>,
    pub results: Vec<ResultRow>,
    pub sample_results: Vec<SampleResultEdge>,
    pub users: Vec<UserRow>,
}

impl SampleInfo {
    /// An identical copy.
    pub fn duplicate(&self) -> (r: Self)
        ensures
            r == *self,
    {
        SampleInfo {
            name: self.name.clone(),
            azimuth_bits: self.azimuth_bits,
            elevation_bits: self.elevation_bits,
        }
    }

    /// The caller-supplied name is accepted: between 1 and 63 characters.
    pub fn validate(&self) -> (r: bool)
        ensures
            r == (1 <= self.name@.len() <= 63),
    {
        let n = self.name.as_str().unicode_len();
        1 <= n && n <= 63
    }
}

impl Experiment {
    /// The caller-supplied name is accepted: between 1 and 63 characters.
    pub fn validate(&self) -> (r: bool)
        ensures
            r == (1 <= self.name@.len() <= 63),
    {
        let n = self.name.as_str().unicode_len();
        1 <= n && n <= 63
    }
}

impl ExperimentResult {
    /// The caller-supplied user name is accepted: between 1 and 63
    /// characters.
    pub fn validate(&self) -> (r: bool)
        ensures
            r == (1 <= self.user@.len() <= 63),
    {
        let n = self.user.as_str().unicode_len();
        1 <= n && n <= 63
    }
}

impl SampleRow {
    /// An identical copy of the row.
    pub fn duplicate(&self) -> (r: Self)
        ensures
            r == *self,
    {
        SampleRow { key_num: self.key_num, key: self.key.clone(), info: self.info.duplicate() }
    }
}

impl ExperimentRow {
    /// An identical copy of the row.
    pub fn duplicate(&self) -> (r: Self)
        ensures
            r == *self,
    {
        ExperimentRow {
            key_num: self.key_num,
            key: self.key.clone(),
            name: self.name.clone(),
            is_public: self.is_public,
        }
    }
}

impl ExperimentSampleEdge {
    /// An identical copy of the edge.
    pub fn duplicate(&self) -> (r: Self)
        ensures
            r == *self,
    {
        ExperimentSampleEdge {
            experiment_num: self.experiment_num,
            experiment: self.experiment.clone(),
            sample: self.sample.clone(),
        }
    }
}

impl ResultRow {
    /// An identical copy of the row.
    pub fn duplicate(&self) -> (r: Self)
        ensures
            r == *self,
    {
        ResultRow {
            key_num: self.key_num,
            key: self.key.clone(),
            experiment_id: self.experiment_id.clone(),
            training: self.training,
            user: self.user.clone(),
        }
    }
}

impl SampleResultEdge {
    /// An identical copy of the edge.
    pub fn duplicate(&self) -> (r: Self)
        ensures
            r == *self,
    {
        SampleResultEdge {
            result_num: self.result_num,
            result: self.result.clone(),
            experiment: self.experiment.clone(),
            sample: self.sample.clone(),
            azimuth_bits: self.azimuth_bits,
            elevation_bits: self.elevation_bits,
        }
    }
}

/// The first sample row stored under `key`.
pub open spec fn find_sample(rows: Seq<SampleRow>, key: Seq<char>) -> Option<SampleRow>
    decreases rows.len(),
{
    if rows.len() == 0 {
        Option::None
    } else if rows[0].key@ == key {
        Option::Some(rows[0])
    } else {
        find_sample(rows.drop_first(), key)
    }
}

/// The first experiment row stored under `key`.
pub open spec fn find_experiment(rows: Seq<ExperimentRow>, key: Seq<char>) -> Option<
    ExperimentRow,
>
    decreases rows.len(),
{
    if rows.len() == 0 {
        Option::None
    } else if rows[0].key@ == key {
        Option::Some(rows[0])
    } else {
        find_experiment(rows.drop_first(), key)
    }
}

/// The first user row stored under `key`.
pub open spec fn find_user(rows: Seq<UserRow>, key: Seq<char>) -> Option<UserRow>
    decreases rows.len(),
{
    if rows.len() == 0 {
        Option::None
    } else if rows[0].key@ == key {
        Option::Some(rows[0])
    } else {
        find_user(rows.drop_first(), key)
    }
}

/// Some sample row carries `name`; the name index is occupied.
pub open spec fn sample_named(rows: Seq<SampleRow>, name: Seq<char>) -> bool
    decreases rows.len(),
{
    if rows.len() == 0 {
        false
    } else {
        rows[0].info.name@ == name || sample_named(rows.drop_first(), name)
    }
}

/// An edge from experiment `exp` to sample `sample` exists.
pub open spec fn edge_exists(
    edges: Seq<ExperimentSampleEdge>,
    exp: Seq<char>,
    sample: Seq<char>,
) -> bool
    decreases edges.len(),
{
    if edges.len() == 0 {
        false
    } else {
        (edges[0].experiment@ == exp && edges[0].sample@ == sample) || edge_exists(
            edges.drop_first(),
            exp,
            sample,
        )
    }
}

/// Some edge targets `sample`; the sample is protected from deletion.
pub open spec fn sample_linked(edges: Seq<ExperimentSampleEdge>, sample: Seq<char>) -> bool
    decreases edges.len(),
{
    if edges.len() == 0 {
        false
    } else {
        edges[0].sample@ == sample || sample_linked(edges.drop_first(), sample)
    }
}

/// The sample identifiers linked from experiment `exp`, in edge order: the
/// derived view a read returns together with the experiment.
pub open spec fn sample_ids_of(edges: Seq<ExperimentSampleEdge>, exp: Seq<char>) -> Seq<
    Seq<char>,
>
    decreases edges.len(),
{
    if edges.len() == 0 {
        Seq::empty()
    } else {
        let front = sample_ids_of(edges.drop_last(), exp);
        if edges.last().experiment@ == exp {
            front.push(edges.last().sample@)
        } else {
            front
        }
    }
}

/// The result rows recorded for experiment `exp`, in row order.
pub open spec fn results_of(rows: Seq<ResultRow>, exp: Seq<char>) -> Seq<ResultRow>
    decreases rows.len(),
{
    if rows.len() == 0 {
        Seq::empty()
    } else {
        let front = results_of(rows.drop_last(), exp);
        if rows.last().experiment_id@ == exp {
            front.push(rows.last())
        } else {
            front
        }
    }
}

/// The outcome edges recorded for result `result_key`, in edge order.
pub open spec fn outcomes_of(edges: Seq<SampleResultEdge>, result_key: Seq<char>) -> Seq<
    SampleResultEdge,
>
    decreases edges.len(),
{
    if edges.len() == 0 {
        Seq::empty()
    } else {
        let front = outcomes_of(edges.drop_last(), result_key);
        if edges.last().result@ == result_key {
            front.push(edges.last())
        } else {
            front
        }
    }
}

/// The sample rows with `key` taken out.
pub open spec fn without_sample(rows: Seq<SampleRow>, key: Seq<char>) -> Seq<SampleRow>
    decreases rows.len(),
{
    if rows.len() == 0 {
        Seq::empty()
    } else {
        let front = without_sample(rows.drop_last(), key);
        if rows.last().key@ == key {
            front
        } else {
            front.push(rows.last())
        }
    }
}

/// The experiment rows with `key` taken out.
pub open spec fn without_experiment(rows: Seq<ExperimentRow>, key: Seq<char>) -> Seq<
    ExperimentRow,
>
    decreases rows.len(),
{
    if rows.len() == 0 {
        Seq::empty()
    } else {
        let front = without_experiment(rows.drop_last(), key);
        if rows.last().key@ == key {
            front
        } else {
            front.push(rows.last())
        }
    }
}

/// The experiment-sample edges with experiment `key` taken out.
pub open spec fn without_experiment_edges(
    edges: Seq<ExperimentSampleEdge>,
    key: Seq<char>,
) -> Seq<ExperimentSampleEdge>
    decreases edges.len(),
{
    if edges.len() == 0 {
        Seq::empty()
    } else {
        let front = without_experiment_edges(edges.drop_last(), key);
        if edges.last().experiment@ == key {
            front
        } else {
            front.push(edges.last())
        }
    }
}

/// The outcome edges hanging off experiment `key` taken out.
pub open spec fn without_experiment_outcomes(
    edges: Seq<SampleResultEdge>,
    key: Seq<char>,
) -> Seq<SampleResultEdge>
    decreases edges.len(),
{
    if edges.len() == 0 {
        Seq::empty()
    } else {
        let front = without_experiment_outcomes(edges.drop_last(), key);
        if edges.last().experiment@ == key {
            front
        } else {
            front.push(edges.last())
        }
    }
}

impl Store {
    /// An empty store.
    pub fn new() -> (r: Self)
        ensures
            r.next_key == 0,
            r.samples@.len() == 0,
            r.experiments@.len() == 0,
            r.experiment_samples@.len() == 0,
            r.results@.len() == 0,
            r.sample_results@.len() == 0,
            r.users@.len() == 0,
            r.wf(),
    {
        Store {
            next_key: 0,
            samples: Vec::new(),
            experiments: Vec::new(),
            experiment_samples: Vec::new(),
            results: Vec::new(),
            sample_results: Vec::new(),
            users: Vec::new(),
        }
    }

    /// Every generated key renders its counter value, counters stay below
    /// the next one to be handed out, and user keys are pairwise distinct.
    pub open spec fn wf(self) -> bool {
        &&& forall|i: int|
            0 <= i < self.samples@.len() ==> (#[trigger] self.samples@[i]).key@ == decimal_chars(
                self.samples@[i].key_num as nat,
            ) && self.samples@[i].key_num < self.next_key
        &&& forall|i: int|
            0 <= i < self.experiments@.len() ==> (#[trigger] self.experiments@[i]).key@
                == decimal_chars(self.experiments@[i].key_num as nat)
                && self.experiments@[i].key_num < self.next_key
        &&& forall|i: int|
            0 <= i < self.experiment_samples@.len() ==> (
            #[trigger] self.experiment_samples@[i]).experiment@ == decimal_chars(
                self.experiment_samples@[i].experiment_num as nat,
            ) && self.experiment_samples@[i].experiment_num < self.next_key
        &&& forall|i: int|
            0 <= i < self.results@.len() ==> (#[trigger] self.results@[i]).key@ == decimal_chars(
                self.results@[i].key_num as nat,
            ) && self.results@[i].key_num < self.next_key
        &&& forall|i: int|
            0 <= i < self.sample_results@.len() ==> (#[trigger] self.sample_results@[i]).result@
                == decimal_chars(self.sample_results@[i].result_num as nat)
                && self.sample_results@[i].result_num < self.next_key
        &&& forall|i: int, j: int|
            0 <= i < j < self.users@.len() ==> (#[trigger] self.users@[i]).key@ != (
            #[trigger] self.users@[j]).key@
    }
}

/// No key the store has generated renders the value the counter holds now:
/// a fresh key never collides.
pub proof fn lemma_fresh_key_unused(s: Store)
    requires
        s.wf(),
    ensures
        find_sample(s.samples@, decimal_chars(s.next_key as nat)) is None,
        find_experiment(s.experiments@, decimal_chars(s.next_key as nat)) is None,
        forall|i: int|
            0 <= i < s.experiment_samples@.len() ==> (
            #[trigger] s.experiment_samples@[i]).experiment@ != decimal_chars(
                s.next_key as nat,
            ),
        forall|i: int|
            0 <= i < s.sample_results@.len() ==> (#[trigger] s.sample_results@[i]).result@
                != decimal_chars(s.next_key as nat),
        forall|i: int|
            0 <= i < s.results@.len() ==> (#[trigger] s.results@[i]).key@ != decimal_chars(
                s.next_key as nat,
            ),
        forall|i: int|
            0 <= i < s.samples@.len() ==> (#[trigger] s.samples@[i]).key@ != decimal_chars(
                s.next_key as nat,
            ),
        forall|i: int|
            0 <= i < s.experiments@.len() ==> (#[trigger] s.experiments@[i]).key@
                != decimal_chars(s.next_key as nat),
{
    let fresh = decimal_chars(s.next_key as nat);
    assert forall|i: int| 0 <= i < s.samples@.len() implies (#[trigger] s.samples@[i]).key@
        != fresh by {
        lemma_decimal_chars_injective(s.samples@[i].key_num as nat, s.next_key as nat);
    }
    assert forall|i: int| 0 <= i < s.experiments@.len() implies (
    #[trigger] s.experiments@[i]).key@ != fresh by {
        lemma_decimal_chars_injective(s.experiments@[i].key_num as nat, s.next_key as nat);
    }
    assert forall|i: int| 0 <= i < s.experiment_samples@.len() implies (
    #[trigger] s.experiment_samples@[i]).experiment@ != fresh by {
        lemma_decimal_chars_injective(
            s.experiment_samples@[i].experiment_num as nat,
            s.next_key as nat,
        );
    }
    assert forall|i: int| 0 <= i < s.results@.len() implies (#[trigger] s.results@[i]).key@
        != fresh by {
        lemma_decimal_chars_injective(s.results@[i].key_num as nat, s.next_key as nat);
    }
    assert forall|i: int| 0 <= i < s.sample_results@.len() implies (
    #[trigger] s.sample_results@[i]).result@ != fresh by {
        lemma_decimal_chars_injective(s.sample_results@[i].result_num as nat, s.next_key as nat);
    }
    lemma_find_sample_absent(s.samples@, fresh);
    lemma_find_experiment_absent(s.experiments@, fresh);
}

/// A key no sample row carries is not found.
pub proof fn lemma_find_sample_absent(rows: Seq<SampleRow>, key: Seq<char>)
    requires
        forall|i: int| 0 <= i < rows.len() ==> (#[trigger] rows[i]).key@ != key,
    ensures
        find_sample(rows, key) is None,
    decreases rows.len(),
{
    if rows.len() > 0 {
        lemma_find_sample_absent(rows.drop_first(), key);
    }
}

/// A key no experiment row carries is not found.
pub proof fn lemma_find_experiment_absent(rows: Seq<ExperimentRow>, key: Seq<char>)
    requires
        forall|i: int| 0 <= i < rows.len() ==> (#[trigger] rows[i]).key@ != key,
    ensures
        find_experiment(rows, key) is None,
    decreases rows.len(),
{
    if rows.len() > 0 {
        lemma_find_experiment_absent(rows.drop_first(), key);
    }
}

/// A generated key holds decimal digits only, so the blob store's path
/// handling leaves it whole.
pub proof fn lemma_decimal_key_segment(n: nat)
    ensures
        last_segment(decimal_chars(n)) == decimal_chars(n),
        decimal_chars(n).len() > 0,
{
    lemma_decimal_no_slash(n);
    crate::text::lemma_last_segment_whole(decimal_chars(n));
    crate::text::lemma_decimal_chars_len(n);
}

/// Decimal digits never include a path separator.
proof fn lemma_decimal_no_slash(n: nat)
    ensures
        forall|i: int|
            0 <= i < decimal_chars(n).len() ==> #[trigger] decimal_chars(n)[i] != '/',
    decreases n,
{
    if n >= 10 {
        lemma_decimal_no_slash(n / 10);
        assert forall|i: int| 0 <= i < decimal_chars(n).len() implies #[trigger] decimal_chars(
            n,
        )[i] != '/' by {
            if i < decimal_chars(n / 10).len() {
                assert(decimal_chars(n)[i] == decimal_chars(n / 10)[i]);
            } else {
                assert(decimal_chars(n)[i] == digit_char((n % 10) as u8));
            }
        }
    }
}

/// Generates the next record key: the decimal rendering of the counter.
pub fn fresh_key(store: &mut Store) -> (r: (u64, String))
    requires
        old(store).next_key < u64::MAX,
    ensures
        r.0 == old(store).next_key,
        r.1@ == decimal_chars(r.0 as nat),
        final(store).next_key == old(store).next_key + 1,
        final(store).samples == old(store).samples,
        final(store).experiments == old(store).experiments,
        final(store).experiment_samples == old(store).experiment_samples,
        final(store).results == old(store).results,
        final(store).sample_results == old(store).sample_results,
        final(store).users == old(store).users,
{
    let num = store.next_key;
    let key = decimal_string(num);
    store.next_key = num + 1;
    (num, key)
}

/// Finds the position of the sample row stored under `key`.
pub fn find_sample_index(rows: &Vec<SampleRow>, key: &str) -> (r: Option<usize>)
    ensures
        match r {
            Option::Some(i) => find_sample(rows@, key@) == Option::Some(rows@[i as int]) && i
                < rows@.len() && rows@[i as int].key@ == key@,
            Option::None => find_sample(rows@, key@) is None,
        },
{
    let mut i: usize = 0;
    while i < rows.len()
        invariant
            i <= rows@.len(),
            forall|k: int| 0 <= k < i ==> (#[trigger] rows@[k]).key@ != key@,
        decreases rows@.len() - i,
    {
        if str_eq(rows[i].key.as_str(), key) {
            proof {
                lemma_find_sample_skip(rows@, key@, i as int);
                assert(rows@.skip(i as int)[0] == rows@[i as int]);
            }
            return Option::Some(i);
        }
        i = i + 1;
    }
    proof {
        lemma_find_sample_absent(rows@, key@);
    }
    Option::None
}

/// With no match among the first `i` rows, the lookup is decided by the
/// remaining rows.
proof fn lemma_find_sample_skip(rows: Seq<SampleRow>, key: Seq<char>, i: int)
    requires
        0 <= i <= rows.len(),
        forall|k: int| 0 <= k < i ==> (#[trigger] rows[k]).key@ != key,
    ensures
        find_sample(rows, key) == find_sample(rows.skip(i), key),
    decreases i,
{
    if i == 0 {
        assert(rows.skip(0) =~= rows);
    } else {
        lemma_find_sample_skip(rows.drop_first(), key, i - 1);
        assert(rows.drop_first().skip(i - 1) =~= rows.skip(i));
    }
}

/// Finds the position of the experiment row stored under `key`.
pub fn find_experiment_index(rows: &Vec<ExperimentRow>, key: &str) -> (r: Option<usize>)
    ensures
        match r {
            Option::Some(i) => find_experiment(rows@, key@) == Option::Some(rows@[i as int])
                && i < rows@.len() && rows@[i as int].key@ == key@,
            Option::None => find_experiment(rows@, key@) is None,
        },
{
    let mut i: usize = 0;
    while i < rows.len()
        invariant
            i <= rows@.len(),
            forall|k: int| 0 <= k < i ==> (#[trigger] rows@[k]).key@ != key@,
        decreases rows@.len() - i,
    {
        if str_eq(rows[i].key.as_str(), key) {
            proof {
                lemma_find_experiment_skip(rows@, key@, i as int);
                assert(rows@.skip(i as int)[0] == rows@[i as int]);
            }
            return Option::Some(i);
        }
        i = i + 1;
    }
    proof {
        lemma_find_experiment_absent(rows@, key@);
    }
    Option::None
}

/// With no match among the first `i` rows, the lookup is decided by the
/// remaining rows.
proof fn lemma_find_experiment_skip(rows: Seq<ExperimentRow>, key: Seq<char>, i: int)
    requires
        0 <= i <= rows.len(),
        forall|k: int| 0 <= k < i ==> (#[trigger] rows[k]).key@ != key,
    ensures
        find_experiment(rows, key) == find_experiment(rows.skip(i), key),
    decreases i,
{
    if i == 0 {
        assert(rows.skip(0) =~= rows);
    } else {
        lemma_find_experiment_skip(rows.drop_first(), key, i - 1);
        assert(rows.drop_first().skip(i - 1) =~= rows.skip(i));
    }
}

/// Decides whether some sample row carries `name`.
pub fn sample_name_taken(rows: &Vec<SampleRow>, name: &str) -> (r: bool)
    ensures
        r == sample_named(rows@, name@),
{
    let mut i: usize = 0;
    while i < rows.len()
        invariant
            i <= rows@.len(),
            forall|k: int| 0 <= k < i ==> (#[trigger] rows@[k]).info.name@ != name@,
        decreases rows@.len() - i,
    {
        if str_eq(rows[i].info.name.as_str(), name) {
            proof {
                lemma_sample_named_skip(rows@, name@, i as int);
                assert(rows@.skip(i as int)[0] == rows@[i as int]);
            }
            return true;
        }
        i = i + 1;
    }
    proof {
        lemma_sample_named_skip(rows@, name@, i as int);
        assert(rows@.skip(i as int) =~= Seq::<SampleRow>::empty());
    }
    false
}

/// With no carrier among the first `i` rows, the name check is decided by
/// the remaining rows.
proof fn lemma_sample_named_skip(rows: Seq<SampleRow>, name: Seq<char>, i: int)
    requires
        0 <= i <= rows.len(),
        forall|k: int| 0 <= k < i ==> (#[trigger] rows[k]).info.name@ != name,
    ensures
        sample_named(rows, name) == sample_named(rows.skip(i), name),
    decreases i,
{
    if i == 0 {
        assert(rows.skip(0) =~= rows);
    } else {
        lemma_sample_named_skip(rows.drop_first(), name, i - 1);
        assert(rows.drop_first().skip(i - 1) =~= rows.skip(i));
    }
}

/// Decides whether an edge from `exp` to `sample` exists.
pub fn edge_present(edges: &Vec<ExperimentSampleEdge>, exp: &str, sample: &str) -> (r: bool)
    ensures
        r == edge_exists(edges@, exp@, sample@),
{
    let mut i: usize = 0;
    while i < edges.len()
        invariant
            i <= edges@.len(),
            forall|k: int|
                0 <= k < i ==> !((#[trigger] edges@[k]).experiment@ == exp@ && edges@[k].sample@
                    == sample@),
        decreases edges@.len() - i,
    {
        if str_eq(edges[i].experiment.as_str(), exp) && str_eq(edges[i].sample.as_str(), sample) {
            proof {
                lemma_edge_exists_skip(edges@, exp@, sample@, i as int);
                assert(edges@.skip(i as int)[0] == edges@[i as int]);
            }
            return true;
        }
        i = i + 1;
    }
    proof {
        lemma_edge_exists_skip(edges@, exp@, sample@, i as int);
        assert(edges@.skip(i as int) =~= Seq::<ExperimentSampleEdge>::empty());
    }
    false
}

/// With no match among the first `i` edges, the edge check is decided by
/// the remaining edges.
proof fn lemma_edge_exists_skip(
    edges: Seq<ExperimentSampleEdge>,
    exp: Seq<char>,
    sample: Seq<char>,
    i: int,
)
    requires
        0 <= i <= edges.len(),
        forall|k: int|
            0 <= k < i ==> !((#[trigger] edges[k]).experiment@ == exp && edges[k].sample@
                == sample),
    ensures
        edge_exists(edges, exp, sample) == edge_exists(edges.skip(i), exp, sample),
    decreases i,
{
    if i == 0 {
        assert(edges.skip(0) =~= edges);
    } else {
        lemma_edge_exists_skip(edges.drop_first(), exp, sample, i - 1);
        assert(edges.drop_first().skip(i - 1) =~= edges.skip(i));
    }
}

/// Decides whether some edge targets `sample`.
pub fn sample_is_linked(edges: &Vec<ExperimentSampleEdge>, sample: &str) -> (r: bool)
    ensures
        r == sample_linked(edges@, sample@),
{
    let mut i: usize = 0;
    while i < edges.len()
        invariant
            i <= edges@.len(),
            forall|k: int| 0 <= k < i ==> (#[trigger] edges@[k]).sample@ != sample@,
        decreases edges@.len() - i,
    {
        if str_eq(edges[i].sample.as_str(), sample) {
            proof {
                lemma_sample_linked_skip(edges@, sample@, i as int);
                assert(edges@.skip(i as int)[0] == edges@[i as int]);
            }
            return true;
        }
        i = i + 1;
    }
    proof {
        lemma_sample_linked_skip(edges@, sample@, i as int);
        assert(edges@.skip(i as int) =~= Seq::<ExperimentSampleEdge>::empty());
    }
    false
}

/// With no link among the first `i` edges, the link check is decided by
/// the remaining edges.
proof fn lemma_sample_linked_skip(edges: Seq<ExperimentSampleEdge>, sample: Seq<char>, i: int)
    requires
        0 <= i <= edges.len(),
        forall|k: int| 0 <= k < i ==> (#[trigger] edges[k]).sample@ != sample,
    ensures
        sample_linked(edges, sample) == sample_linked(edges.skip(i), sample),
    decreases i,
{
    if i == 0 {
        assert(edges.skip(0) =~= edges);
    } else {
        lemma_sample_linked_skip(edges.drop_first(), sample, i - 1);
        assert(edges.drop_first().skip(i - 1) =~= edges.skip(i));
    }
}

/// A key that is not found is carried by no row.
pub proof fn lemma_user_key_free(rows: Seq<UserRow>, key: Seq<char>)
    requires
        find_user(rows, key) is None,
    ensures
        forall|i: int| 0 <= i < rows.len() ==> (#[trigger] rows[i]).key@ != key,
    decreases rows.len(),
{
    if rows.len() > 0 {
        lemma_user_key_free(rows.drop_first(), key);
        assert forall|i: int| 0 <= i < rows.len() implies (#[trigger] rows[i]).key@ != key by {
            if i > 0 {
                assert(rows[i] == rows.drop_first()[i - 1]);
            }
        }
    }
}

/// Finds the position of the user row stored under `key`.
pub fn find_user_index(rows: &Vec<UserRow>, key: &str) -> (r: Option<usize>)
    ensures
        match r {
            Option::Some(i) => find_user(rows@, key@) == Option::Some(rows@[i as int]) && i
                < rows@.len() && rows@[i as int].key@ == key@,
            Option::None => find_user(rows@, key@) is None,
        },
{
    let mut i: usize = 0;
    while i < rows.len()
        invariant
            i <= rows@.len(),
            forall|k: int| 0 <= k < i ==> (#[trigger] rows@[k]).key@ != key@,
        decreases rows@.len() - i,
    {
        if str_eq(rows[i].key.as_str(), key) {
            proof {
                lemma_find_user_skip(rows@, key@, i as int);
                assert(rows@.skip(i as int)[0] == rows@[i as int]);
            }
            return Option::Some(i);
        }
        i = i + 1;
    }
    proof {
        lemma_find_user_skip(rows@, key@, i as int);
        assert(rows@.skip(i as int) =~= Seq::<UserRow>::empty());
    }
    Option::None
}

/// With no match among the first `i` rows, the lookup is decided by the
/// remaining rows.
proof fn lemma_find_user_skip(rows: Seq<UserRow>, key: Seq<char>, i: int)
    requires
        0 <= i <= rows.len(),
        forall|k: int| 0 <= k < i ==> (#[trigger] rows[k]).key@ != key,
    ensures
        find_user(rows, key) == find_user(rows.skip(i), key),
    decreases i,
{
    if i == 0 {
        assert(rows.skip(0) =~= rows);
    } else {
        lemma_find_user_skip(rows.drop_first(), key, i - 1);
        assert(rows.drop_first().skip(i - 1) =~= rows.skip(i));
    }
}

/// The derived sample listing distributes over edge concatenation.
pub proof fn lemma_sample_ids_of_concat(
    a: Seq<ExperimentSampleEdge>,
    b: Seq<ExperimentSampleEdge>,
    exp: Seq<char>,
)
    ensures
        sample_ids_of(a + b, exp) == sample_ids_of(a, exp) + sample_ids_of(b, exp),
    decreases b.len(),
{
    if b.len() == 0 {
        assert(a + b =~= a);
        assert(sample_ids_of(a, exp) + sample_ids_of(b, exp) =~= sample_ids_of(a, exp));
    } else {
        lemma_sample_ids_of_concat(a, b.drop_last(), exp);
        assert((a + b).drop_last() =~= a + b.drop_last());
        assert((a + b).last() == b.last());
        if b.last().experiment@ == exp {
            assert(sample_ids_of(a, exp) + sample_ids_of(b.drop_last(), exp).push(
                b.last().sample@,
            ) =~= (sample_ids_of(a, exp) + sample_ids_of(b.drop_last(), exp)).push(
                b.last().sample@,
            ));
        }
    }
}

/// Edges of other experiments contribute nothing to the derived listing.
pub proof fn lemma_sample_ids_of_absent(edges: Seq<ExperimentSampleEdge>, exp: Seq<char>)
    requires
        forall|i: int| 0 <= i < edges.len() ==> (#[trigger] edges[i]).experiment@ != exp,
    ensures
        sample_ids_of(edges, exp) == Seq::<Seq<char>>::empty(),
    decreases edges.len(),
{
    if edges.len() > 0 {
        lemma_sample_ids_of_absent(edges.drop_last(), exp);
    }
}

/// The outcome listing distributes over edge concatenation.
pub proof fn lemma_outcomes_of_concat(
    a: Seq<SampleResultEdge>,
    b: Seq<SampleResultEdge>,
    key: Seq<char>,
)
    ensures
        outcomes_of(a + b, key) == outcomes_of(a, key) + outcomes_of(b, key),
    decreases b.len(),
{
    if b.len() == 0 {
        assert(a + b =~= a);
        assert(outcomes_of(a, key) + outcomes_of(b, key) =~= outcomes_of(a, key));
    } else {
        lemma_outcomes_of_concat(a, b.drop_last(), key);
        assert((a + b).drop_last() =~= a + b.drop_last());
        assert((a + b).last() == b.last());
        if b.last().result@ == key {
            assert(outcomes_of(a, key) + outcomes_of(b.drop_last(), key).push(b.last()) =~= (
            outcomes_of(a, key) + outcomes_of(b.drop_last(), key)).push(b.last()));
        }
    }
}

/// Edges of other results contribute nothing to the outcome listing.
pub proof fn lemma_outcomes_of_absent(edges: Seq<SampleResultEdge>, key: Seq<char>)
    requires
        forall|i: int| 0 <= i < edges.len() ==> (#[trigger] edges[i]).result@ != key,
    ensures
        outcomes_of(edges, key) == Seq::<SampleResultEdge>::empty(),
    decreases edges.len(),
{
    if edges.len() > 0 {
        lemma_outcomes_of_absent(edges.drop_last(), key);
    }
}

/// Copies the sample rows, leaving out those stored under `key`.
pub fn retain_samples(rows: &Vec<SampleRow>, key: &str) -> (r: Vec<SampleRow>)
    ensures
        r@ == without_sample(rows@, key@),
        forall|i: int|
            0 <= i < r@.len() ==> exists|k: int|
                0 <= k < rows@.len() && (#[trigger] r@[i]) == #[trigger] rows@[k],
{
    let mut out: Vec<SampleRow> = Vec::new();
    let mut i: usize = 0;
    while i < rows.len()
        invariant
            i <= rows@.len(),
            out@ == without_sample(rows@.take(i as int), key@),
            forall|j: int|
                0 <= j < out@.len() ==> exists|k: int|
                    0 <= k < rows@.len() && (#[trigger] out@[j]) == #[trigger] rows@[k],
        decreases rows@.len() - i,
    {
        proof {
            assert(rows@.take(i + 1).drop_last() =~= rows@.take(i as int));
            assert(rows@.take(i + 1).last() == rows@[i as int]);
        }
        if !str_eq(rows[i].key.as_str(), key) {
            out.push(rows[i].duplicate());
        }
        i = i + 1;
    }
    proof {
        assert(rows@.take(i as int) =~= rows@);
    }
    out
}

/// Copies the experiment rows, leaving out those stored under `key`.
pub fn retain_experiments(rows: &Vec<ExperimentRow>, key: &str) -> (r: Vec<ExperimentRow>)
    ensures
        r@ == without_experiment(rows@, key@),
        forall|i: int|
            0 <= i < r@.len() ==> exists|k: int|
                0 <= k < rows@.len() && (#[trigger] r@[i]) == #[trigger] rows@[k],
{
    let mut out: Vec<ExperimentRow> = Vec::new();
    let mut i: usize = 0;
    while i < rows.len()
        invariant
            i <= rows@.len(),
            out@ == without_experiment(rows@.take(i as int), key@),
            forall|j: int|
                0 <= j < out@.len() ==> exists|k: int|
                    0 <= k < rows@.len() && (#[trigger] out@[j]) == #[trigger] rows@[k],
        decreases rows@.len() - i,
    {
        proof {
            assert(rows@.take(i + 1).drop_last() =~= rows@.take(i as int));
            assert(rows@.take(i + 1).last() == rows@[i as int]);
        }
        if !str_eq(rows[i].key.as_str(), key) {
            out.push(rows[i].duplicate());
        }
        i = i + 1;
    }
    proof {
        assert(rows@.take(i as int) =~= rows@);
    }
    out
}

/// Copies the experiment-sample edges, leaving out those of experiment
/// `key`.
pub fn retain_experiment_edges(
    edges: &Vec<ExperimentSampleEdge>,
    key: &str,
) -> (r: Vec<ExperimentSampleEdge>)
    ensures
        r@ == without_experiment_edges(edges@, key@),
        forall|i: int|
            0 <= i < r@.len() ==> exists|k: int|
                0 <= k < edges@.len() && (#[trigger] r@[i]) == #[trigger] edges@[k],
{
    let mut out: Vec<ExperimentSampleEdge> = Vec::new();
    let mut i: usize = 0;
    while i < edges.len()
        invariant
            i <= edges@.len(),
            out@ == without_experiment_edges(edges@.take(i as int), key@),
            forall|j: int|
                0 <= j < out@.len() ==> exists|k: int|
                    0 <= k < edges@.len() && (#[trigger] out@[j]) == #[trigger] edges@[k],
        decreases edges@.len() - i,
    {
        proof {
            assert(edges@.take(i + 1).drop_last() =~= edges@.take(i as int));
            assert(edges@.take(i + 1).last() == edges@[i as int]);
        }
        if !str_eq(edges[i].experiment.as_str(), key) {
            out.push(edges[i].duplicate());
        }
        i = i + 1;
    }
    proof {
        assert(edges@.take(i as int) =~= edges@);
    }
    out
}

/// Copies the outcome edges, leaving out those hanging off experiment
/// `key`.
pub fn retain_experiment_outcomes(
    edges: &Vec<SampleResultEdge>,
    key: &str,
) -> (r: Vec<SampleResultEdge>)
    ensures
        r@ == without_experiment_outcomes(edges@, key@),
        forall|i: int|
            0 <= i < r@.len() ==> exists|k: int|
                0 <= k < edges@.len() && (#[trigger] r@[i]) == #[trigger] edges@[k],
{
    let mut out: Vec<SampleResultEdge> = Vec::new();
    let mut i: usize = 0;
    while i < edges.len()
        invariant
            i <= edges@.len(),
            out@ == without_experiment_outcomes(edges@.take(i as int), key@),
            forall|j: int|
                0 <= j < out@.len() ==> exists|k: int|
                    0 <= k < edges@.len() && (#[trigger] out@[j]) == #[trigger] edges@[k],
        decreases edges@.len() - i,
    {
        proof {
            assert(edges@.take(i + 1).drop_last() =~= edges@.take(i as int));
            assert(edges@.take(i + 1).last() == edges@[i as int]);
        }
        if !str_eq(edges[i].experiment.as_str(), key) {
            out.push(edges[i].duplicate());
        }
        i = i + 1;
    }
    proof {
        assert(edges@.take(i as int) =~= edges@);
    }
    out
}

/// Collects the sample identifiers linked from experiment `exp`, in edge
/// order.
pub fn collect_sample_ids(edges: &Vec<ExperimentSampleEdge>, exp: &str) -> (r: Vec<String>)
    ensures
        r@.len() == sample_ids_of(edges@, exp@).len(),
        forall|j: int|
            0 <= j < r@.len() ==> (#[trigger] r@[j])@ == sample_ids_of(edges@, exp@)[j],
{
    let mut out: Vec<String> = Vec::new();
    let mut i: usize = 0;
    while i < edges.len()
        invariant
            i <= edges@.len(),
            out@.len() == sample_ids_of(edges@.take(i as int), exp@).len(),
            forall|j: int|
                0 <= j < out@.len() ==> (#[trigger] out@[j])@ == sample_ids_of(
                    edges@.take(i as int),
                    exp@,
                )[j],
        decreases edges@.len() - i,
    {
        proof {
            assert(edges@.take(i + 1).drop_last() =~= edges@.take(i as int));
            assert(edges@.take(i + 1).last() == edges@[i as int]);
        }
        if str_eq(edges[i].experiment.as_str(), exp) {
            out.push(edges[i].sample.clone());
        }
        i = i + 1;
    }
    proof {
        assert(edges@.take(i as int) =~= edges@);
    }
    out
}

} // verus!
