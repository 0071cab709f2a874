//! The schema migration engine: loading gives each migration file an
//! identifier and a content hash; reconciliation holds the ledger of
//! already-applied migrations against the files on disk; the runner applies
//! exactly the files the ledger does not record yet, in identifier order,
//! recording each as it goes. Any disagreement between ledger and files is
//! unrecoverable drift.

use vstd::prelude::*;
use vstd::string::StringExecFns;

use crate::digest::{content_hash, text_hash};
use crate::order::{
    lemma_sort_len, lemma_sort_sorted, lemma_sort_append, sort_by_id, sort_ordered,
    sorted_by_id, OrderedById,
};
use crate::text::{chars_le, str_eq, str_le};

verus! {

/// Where the migration files live.
#[derive(Debug)]
pub struct MigratorConfig {
    pub directory: String,
}

/// The migration engine; it works against a ledger of applied migrations.
pub struct Migrator<'a> {
    pub config: &'a MigratorConfig,
}

/// A migration file as loaded: its identifier (the file name), its
/// statement text, and the content hash of that text.
pub struct Migration {
    pub id: String,
    pub query: String,
    pub hash: String,
}

/// A ledger row: a migration that has been applied, when, and the content
/// hash its file had at that time.
pub struct AppliedMigration {
    pub id: String,
    pub applied_at: u64,
    pub hash: String,
}

/// Failure of a migration run.
#[derive(Debug, PartialEq, Eq)]
pub enum MigrationError {
    /// The ledger and the files on disk disagree: more rows than files, a
    /// renamed file, or an edited file at an already-recorded position.
    Mismatch,
}

impl OrderedById for Migration {
    open spec fn order_id(self) -> Seq<char> {
        self.id@
    }

    fn id_le(&self, other: &Self) -> (r: bool) {
        str_le(self.id.as_str(), other.id.as_str())
    }
}

impl OrderedById for AppliedMigration {
    open spec fn order_id(self) -> Seq<char> {
        self.id@
    }

    fn id_le(&self, other: &Self) -> (r: bool) {
        str_le(self.id.as_str(), other.id.as_str())
    }
}

impl OrderedById for (String, String) {
    open spec fn order_id(self) -> Seq<char> {
        self.0@
    }

    fn id_le(&self, other: &Self) -> (r: bool) {
        str_le(self.0.as_str(), other.0.as_str())
    }
}

impl Migration {
    /// An identical copy of the migration.
    pub fn duplicate(&self) -> (r: Self)
        ensures
            r == *self,
    {
        Migration { id: self.id.clone(), query: self.query.clone(), hash: self.hash.clone() }
    }
}

impl AppliedMigration {
    /// An identical copy of the ledger row.
    pub fn duplicate(&self) -> (r: Self)
        ensures
            r == *self,
    {
        AppliedMigration {
            id: self.id.clone(),
            applied_at: self.applied_at,
            hash: self.hash.clone(),
        }
    }
}

/// `out` holds one migration per directory entry, in entry order, each with
/// the content hash of its statement text.
pub open spec fn built_from(entries: Seq<(String, String)>, out: Seq<Migration>) -> bool {
    &&& out.len() == entries.len()
    &&& forall|i: int|
        0 <= i < entries.len() ==> (#[trigger] out[i]).id == entries[i].0 && out[i].query
            == entries[i].1 && out[i].hash@ == text_hash(entries[i].1@)
}

/// Sorted ledger rows match the loaded files position by position: no more
/// rows than files, and equal identifiers and hashes at every shared
/// position.
pub open spec fn ledger_matches(applied: Seq<AppliedMigration>, files: Seq<Migration>) -> bool {
    &&& applied.len() <= files.len()
    &&& forall|i: int|
        0 <= i < applied.len() ==> (#[trigger] applied[i]).id@ == files[i].id@
            && applied[i].hash@ == files[i].hash@
}

/// What reconciliation returns: the files not yet recorded, in file order,
/// or nothing when the ledger and the files disagree.
pub open spec fn spec_migrations_to_apply(
    applied: Seq<AppliedMigration>,
    files: Seq<Migration>,
) -> Option<Seq<Migration>> {
    if ledger_matches(sort_ordered(applied), files) {
        Option::Some(files.skip(applied.len() as int))
    } else {
        Option::None
    }
}

/// The ledger rows the runner appends when it applies `ta` at time `now`.
pub open spec fn applied_rows(ta: Seq<Migration>, now: u64) -> Seq<AppliedMigration> {
    Seq::new(
        ta.len(),
        |i: int| AppliedMigration { id: ta[i].id, applied_at: now, hash: ta[i].hash },
    )
}

/// Turns directory entries (file name, statement text) into loaded
/// migrations: each entry hashed, the whole sorted by file name.
pub fn build_migrations(entries: Vec<(String, String)>) -> (r: Vec<Migration>)
    ensures
        built_from(sort_ordered(entries@), r@),
        sorted_by_id(r@),
{
    let ghost input = entries@;
    let sorted = sort_by_id(entries);
    let ghost sentries = sorted@;
    let mut rest = sorted;
    let mut out: Vec<Migration> = Vec::new();
    let ghost mut done: int = 0;
    while rest.len() > 0
        invariant
            0 <= done <= sentries.len(),
            rest@ =~= sentries.skip(done),
            out@.len() == done,
            built_from(sentries.take(done), out@),
        decreases rest@.len(),
    {
        let entry = rest.remove(0);
        proof {
            assert(entry == sentries[done]);
            assert(rest@ =~= sentries.skip(done + 1));
        }
        let hash = content_hash(entry.1.as_str());
        out.push(Migration { id: entry.0, query: entry.1, hash });
        proof {
            assert(sentries.take(done + 1) =~= sentries.take(done).push(sentries[done]));
            done = done + 1;
        }
    }
    proof {
        assert(sentries.take(done) =~= sentries);
        lemma_sort_sorted::<(String, String)>(input);
        assert forall|i: int, j: int| 0 <= i < j < out@.len() implies chars_le(
            out@[i].order_id(),
            out@[j].order_id(),
        ) by {
            assert(out@[i].id == sentries[i].0);
            assert(out@[j].id == sentries[j].0);
            assert(chars_le(sentries[i].order_id(), sentries[j].order_id()));
        }
    }
    out
}

impl<'a> Migrator<'a> {
    pub fn new(config: &'a MigratorConfig) -> (r: Self)
        ensures
            r.config == config,
    {
        Self { config }
    }

    /// Reconciles the ledger against the loaded files: sorts the rows by
    /// identifier, holds them against the file prefix, and returns the
    /// files still to apply; any disagreement is drift.
    pub fn migrations_to_apply(
        applied: &Vec<AppliedMigration>,
        all: &Vec<Migration>,
    ) -> (r: Result<Vec<Migration>, MigrationError>)
        ensures
            match spec_migrations_to_apply(applied@, all@) {
                Option::Some(ta) => r is Ok && r->Ok_0@ == ta,
                Option::None => r is Err && r->Err_0 == MigrationError::Mismatch,
            },
    {
        let mut copy: Vec<AppliedMigration> = Vec::new();
        let mut c: usize = 0;
        while c < applied.len()
            invariant
                c <= applied@.len(),
                copy@ =~= applied@.take(c as int),
            decreases applied@.len() - c,
        {
            copy.push(applied[c].duplicate());
            proof {
                assert(applied@.take(c + 1) =~= applied@.take(c as int).push(applied@[c as int]));
            }
            c = c + 1;
        }
        proof {
            assert(copy@ =~= applied@);
            lemma_sort_len(applied@);
        }
        let sorted = sort_by_id(copy);
        if sorted.len() > all.len() {
            return Result::Err(MigrationError::Mismatch);
        }
        let mut i: usize = 0;
        while i < sorted.len()
            invariant
                i <= sorted@.len(),
                sorted@ == sort_ordered(applied@),
                sorted@.len() == applied@.len(),
                sorted@.len() <= all@.len(),
                forall|k: int|
                    0 <= k < i ==> (#[trigger] sorted@[k]).id@ == all@[k].id@
                        && sorted@[k].hash@ == all@[k].hash@,
            decreases sorted@.len() - i,
        {
            if !str_eq(sorted[i].id.as_str(), all[i].id.as_str()) {
                proof {
                    assert(!ledger_matches(sort_ordered(applied@), all@));
                }
                return Result::Err(MigrationError::Mismatch);
            }
            if !str_eq(sorted[i].hash.as_str(), all[i].hash.as_str()) {
                proof {
                    assert(!ledger_matches(sort_ordered(applied@), all@));
                }
                return Result::Err(MigrationError::Mismatch);
            }
            i = i + 1;
        }
        proof {
            assert(ledger_matches(sort_ordered(applied@), all@));
        }
        let mut out: Vec<Migration> = Vec::new();
        let mut k: usize = i;
        while k < all.len()
            invariant
                applied@.len() <= k <= all@.len(),
                out@ =~= all@.subrange(applied@.len() as int, k as int),
            decreases all@.len() - k,
        {
            out.push(all[k].duplicate());
            proof {
                assert(all@.subrange(applied@.len() as int, k + 1) =~= all@.subrange(
                    applied@.len() as int,
                    k as int,
                ).push(all@[k as int]));
            }
            k = k + 1;
        }
        proof {
            assert(out@ =~= all@.skip(applied@.len() as int));
        }
        Result::Ok(out)
    }

    /// The statement batch that applies one migration: one transaction that
    /// runs the migration's text and records its ledger row.
    pub fn apply_migration_statement(migration: &Migration) -> (r: String)
        ensures
            r@ == "BEGIN TRANSACTION;\n"@ + migration.query@
                + "\nINSERT INTO migrations (id, applied_at, hash) VALUES (type::thing(migrations, $mig_id), time::now(), $mig_hash);\nCOMMIT TRANSACTION;\n"@,
    {
        let s = String::from_str("BEGIN TRANSACTION;\n");
        let s = s.concat(migration.query.as_str());
        let s = s.concat(
            "\nINSERT INTO migrations (id, applied_at, hash) VALUES (type::thing(migrations, $mig_id), time::now(), $mig_hash);\nCOMMIT TRANSACTION;\n",
        );
        s
    }

    /// The whole run against a ledger: reconcile, then apply what is
    /// missing, in order, recording each applied migration at time `now`.
    /// On drift nothing is applied and the ledger is left as it was.
    pub fn migrate(
        &self,
        ledger: &mut Vec<AppliedMigration>,
        files: &Vec<Migration>,
        now: u64,
    ) -> (r: Result<usize, MigrationError>)
        ensures
            match spec_migrations_to_apply(old(ledger)@, files@) {
                Option::Some(ta) => {
                    &&& r is Ok
                    &&& r->Ok_0 == ta.len()
                    &&& final(ledger)@ == old(ledger)@ + applied_rows(ta, now)
                },
                Option::None => {
                    &&& r is Err
                    &&& r->Err_0 == MigrationError::Mismatch
                    &&& final(ledger)@ == old(ledger)@
                },
            },
    {
        let to_apply = match Self::migrations_to_apply(ledger, files) {
            Result::Ok(t) => t,
            Result::Err(e) => {
                return Result::Err(e);
            },
        };
        let count = to_apply.len();
        let ghost ta = to_apply@;
        let mut rest = to_apply;
        let ghost mut done: int = 0;
        while rest.len() > 0
            invariant
                0 <= done <= ta.len(),
                rest@ =~= ta.skip(done),
                ledger@ =~= old(ledger)@ + applied_rows(ta.take(done), now),
            decreases rest@.len(),
        {
            let m = rest.remove(0);
            proof {
                assert(m == ta[done]);
                assert(rest@ =~= ta.skip(done + 1));
            }
            ledger.push(AppliedMigration { id: m.id, applied_at: now, hash: m.hash });
            proof {
                assert(applied_rows(ta.take(done + 1), now) =~= applied_rows(
                    ta.take(done),
                    now,
                ).push((AppliedMigration { id: ta[done].id, applied_at: now, hash: ta[done].hash })));
                done = done + 1;
            }
        }
        proof {
            assert(ta.take(done) =~= ta);
            assert(ledger@ =~= old(ledger)@ + applied_rows(ta, now));
        }
        Result::Ok(count)
    }
}

/// Ordering: when the sorted ledger matches the first rows of the files,
/// reconciliation succeeds and returns exactly the files after the matched
/// prefix, in file order.
pub proof fn lemma_ordering(applied: Seq<AppliedMigration>, files: Seq<Migration>)
    requires
        ledger_matches(sort_ordered(applied), files),
    ensures
        ({
            let k = applied.len() as int;
            let r = spec_migrations_to_apply(applied, files);
            &&& r is Some
            &&& r->Some_0 == files.skip(k)
            &&& files =~= files.take(k) + r->Some_0
            &&& forall|j: int| 0 <= j < files.len() - k ==> r->Some_0[j] == files[k + j]
        }),
{
    let k = applied.len() as int;
    lemma_sort_len(applied);
    assert(files =~= files.take(k) + files.skip(k));
}

/// Drift detection: a hash that differs from the ledger row at a shared
/// position fails reconciliation; nothing is applied.
pub proof fn lemma_drift_detection(
    applied: Seq<AppliedMigration>,
    files: Seq<Migration>,
    i: int,
)
    requires
        0 <= i < applied.len(),
        i < files.len(),
        sort_ordered(applied)[i].hash@ != files[i].hash@,
    ensures
        spec_migrations_to_apply(applied, files) is None,
{
    lemma_sort_len(applied);
    assert(!ledger_matches(sort_ordered(applied), files));
}

/// Idempotence: after a successful run over sorted files, a second run
/// finds nothing to apply and appends nothing to the ledger.
pub proof fn lemma_idempotence(ledger: Seq<AppliedMigration>, files: Seq<Migration>, now: u64)
    requires
        sorted_by_id(files),
        spec_migrations_to_apply(ledger, files) is Some,
    ensures
        ({
            let ta = files.skip(ledger.len() as int);
            let after = ledger + applied_rows(ta, now);
            let second = spec_migrations_to_apply(after, files);
            &&& second is Some
            &&& second->Some_0 =~= Seq::<Migration>::empty()
            &&& applied_rows(second->Some_0, now) =~= Seq::<AppliedMigration>::empty()
        }),
{
    let k = ledger.len() as int;
    let sl = sort_ordered(ledger);
    lemma_sort_len(ledger);
    let ta = files.skip(k);
    let rows = applied_rows(ta, now);
    let after = ledger + rows;
    assert(ledger_matches(sl, files));
    assert(sorted_by_id(rows)) by {
        assert forall|i: int, j: int| 0 <= i < j < rows.len() implies chars_le(
            rows[i].order_id(),
            rows[j].order_id(),
        ) by {
            assert(rows[i].id == ta[i].id && rows[j].id == ta[j].id);
            assert(ta[i] == files[k + i] && ta[j] == files[k + j]);
            assert(chars_le(files[k + i].order_id(), files[k + j].order_id()));
        }
    }
    assert forall|i: int, j: int|
        0 <= i < sort_ordered(ledger).len() && 0 <= j < rows.len() implies chars_le(
        sort_ordered(ledger)[i].order_id(),
        rows[j].order_id(),
    ) by {
        assert(sl[i].id@ == files[i].id@);
        assert(rows[j].id == ta[j].id);
        assert(ta[j] == files[k + j]);
        assert(chars_le(files[i].order_id(), files[k + j].order_id()));
    }
    lemma_sort_append(ledger, rows);
    assert(ledger_matches(sort_ordered(after), files)) by {
        assert(sort_ordered(after) == sl + rows);
        assert(after.len() == files.len());
        assert forall|i: int| 0 <= i < files.len() implies (#[trigger] (sl + rows)[i]).id@
            == files[i].id@ && (sl + rows)[i].hash@ == files[i].hash@ by {
            if i < k {
                assert((sl + rows)[i] == sl[i]);
            } else {
                assert((sl + rows)[i] == rows[i - k]);
                assert(rows[i - k].id == ta[i - k].id && rows[i - k].hash == ta[i - k].hash);
                assert(ta[i - k] == files[i]);
            }
        }
    }
    assert(files.skip(after.len() as int) =~= Seq::<Migration>::empty());
}

} // verus!
