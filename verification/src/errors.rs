//! Error taxonomy and the conflict classifier. Driver failures are carried
//! in a structured form; a write rejected by a named unique index is
//! recognized either from that structure or from the driver's message text,
//! and normalized into a typed outcome callers can map to a conflict.

use vstd::prelude::*;

use crate::ident::IdConversionError;
use crate::migrations::MigrationError;
use crate::text::{spec_contains, str_contains};

verus! {

/// What the database driver reports when a statement fails.
#[derive(Debug, PartialEq, Eq)]
pub enum DriverError {
    /// A named unique index rejected a write, in structured form.
    IndexExists { table: String, index: String, value: String },
    /// A record with an explicitly chosen key already exists.
    RecordExists { table: String, key: String },
    /// A statement failed; only the driver's message text is available.
    QueryFailure(String),
    /// Any other driver failure, connectivity included.
    Other(String),
}

/// A database-level failure.
#[derive(Debug, PartialEq, Eq)]
pub enum DbError {
    /// The migration run failed at startup.
    Migration(MigrationError),
    /// A query failed.
    Query(DriverError),
    /// A single row that was expected to exist came back empty.
    NotFound,
}

/// A blob store failure.
#[derive(Debug, PartialEq, Eq)]
pub enum FsError {
    /// No blob under the requested key.
    NotFound,
    /// A blob under the requested key already exists.
    AlreadyExists,
    /// Any other storage failure.
    Other,
}

/// A repository-level failure, as returned to callers.
#[derive(Debug, PartialEq, Eq)]
pub enum RepoError {
    /// The blob store failed.
    FileStorage(FsError),
    /// The database failed.
    Database(DbError),
    /// A database identifier could not be converted to a string identifier.
    IdConversion(IdConversionError),
}

/// The driver error means a named unique index rejected the write: either
/// the structured form says so, or the message text carries the driver's
/// known wording for it.
pub open spec fn spec_non_unique(e: DriverError) -> bool {
    match e {
        DriverError::IndexExists { .. } => true,
        DriverError::QueryFailure(msg) => spec_contains(msg@, "Database index"@)
            && spec_contains(msg@, "already contains"@) && spec_contains(msg@, "with record"@),
        DriverError::RecordExists { .. } => false,
        DriverError::Other(_) => false,
    }
}

/// Classifies a failed write: does the driver error mean a unique index
/// was violated?
pub fn non_unique_value_on_index(error: &DriverError) -> (r: bool)
    ensures
        r == spec_non_unique(*error),
{
    match error {
        DriverError::IndexExists { .. } => true,
        DriverError::QueryFailure(msg) => str_contains(msg.as_str(), "Database index")
            && str_contains(msg.as_str(), "already contains") && str_contains(
            msg.as_str(),
            "with record",
        ),
        DriverError::RecordExists { .. } => false,
        DriverError::Other(_) => false,
    }
}

/// Maps an empty single-row read to the typed not-found failure.
pub trait MapToNotFound<T>: Sized {
    /// What the mapping returns.
    spec fn found_spec(self) -> Result<T, DbError>;

    fn found(self) -> (r: Result<T, DbError>)
        ensures
            r == self.found_spec(),
    ;
}

impl<T> MapToNotFound<T> for Option<T> {
    open spec fn found_spec(self) -> Result<T, DbError> {
        match self {
            Option::Some(t) => Result::Ok(t),
            Option::None => Result::Err(DbError::NotFound),
        }
    }

    fn found(self) -> (r: Result<T, DbError>) {
        match self {
            Option::Some(t) => Result::Ok(t),
            Option::None => Result::Err(DbError::NotFound),
        }
    }
}

/// A driver response to a statement batch: the errors of the statements
/// that failed, each keyed by its statement index.
#[derive(Debug)]
pub struct DbResponse {
    pub errors: Vec<(usize, DriverError)>,
}

/// The error with the smallest statement index, the leftmost of equals.
pub open spec fn first_statement_error(s: Seq<(usize, DriverError)>) -> Option<
    (usize, DriverError),
>
    decreases s.len(),
{
    if s.len() == 0 {
        Option::None
    } else {
        match first_statement_error(s.drop_first()) {
            Option::None => Option::Some(s[0]),
            Option::Some(m) => if s[0].0 <= m.0 {
                Option::Some(s[0])
            } else {
                Option::Some(m)
            },
        }
    }
}

/// Holds a whole response to account: a batch with any failed statement is
/// rejected with the first such failure.
pub trait ValidateDbResponse: Sized {
    /// What validation returns.
    spec fn validate_spec(self) -> Result<Self, DbError>;

    fn validate(self) -> (r: Result<Self, DbError>)
        ensures
            r == self.validate_spec(),
    ;
}

impl ValidateDbResponse for DbResponse {
    open spec fn validate_spec(self) -> Result<Self, DbError> {
        match first_statement_error(self.errors@) {
            Option::None => Result::Ok(self),
            Option::Some(m) => Result::Err(DbError::Query(m.1)),
        }
    }

    fn validate(self) -> (r: Result<Self, DbError>) {
        let n = self.errors.len();
        if n == 0 {
            return Result::Ok(self);
        }
        let mut best: usize = n - 1;
        let mut i: usize = n - 1;
        proof {
            let tail = self.errors@.skip(n - 1);
            assert(tail =~= seq![self.errors@[n - 1]]);
            assert(tail.drop_first() =~= Seq::<(usize, DriverError)>::empty());
            assert(first_statement_error(tail.drop_first()) is None);
            assert(first_statement_error(tail) == Option::Some(self.errors@[n - 1]));
        }
        while i > 0
            invariant
                0 <= i < n,
                i <= best < n,
                n == self.errors@.len(),
                first_statement_error(self.errors@.skip(i as int)) == Option::Some(
                    self.errors@[best as int],
                ),
            decreases i,
        {
            i = i - 1;
            let candidate = self.errors[i].0;
            let incumbent = self.errors[best].0;
            proof {
                assert(self.errors@.skip(i as int).drop_first() =~= self.errors@.skip(i + 1));
                assert(self.errors@.skip(i as int)[0] == self.errors@[i as int]);
            }
            if candidate <= incumbent {
                best = i;
            }
        }
        proof {
            assert(self.errors@.skip(0) =~= self.errors@);
        }
        let mut this = self;
        let (_, e) = this.errors.remove(best);
        Result::Err(DbError::Query(e))
    }
}

/// Classifies a database-level result: did it fail on a unique index?
pub trait IsNonUnique<T> {
    /// Whether the result is a uniqueness violation.
    spec fn non_unique_spec(&self) -> bool;

    fn is_non_unique(&self) -> (r: bool)
        ensures
            r == self.non_unique_spec(),
    ;
}

impl<T> IsNonUnique<T> for Result<T, DbError> {
    open spec fn non_unique_spec(&self) -> bool {
        match self {
            Result::Err(DbError::Query(e)) => spec_non_unique(*e),
            _ => false,
        }
    }

    fn is_non_unique(&self) -> (r: bool) {
        match self {
            Result::Err(DbError::Query(e)) => non_unique_value_on_index(e),
            _ => false,
        }
    }
}

/// Classifies a repository-level result: did it fail on a unique index?
pub trait IsViolatingUnique<T> {
    /// Whether the result is a uniqueness violation.
    spec fn violating_unique_spec(&self) -> bool;

    fn is_violating_unique(&self) -> (r: bool)
        ensures
            r == self.violating_unique_spec(),
    ;
}

impl<T> IsViolatingUnique<T> for Result<T, RepoError> {
    open spec fn violating_unique_spec(&self) -> bool {
        match self {
            Result::Err(RepoError::Database(DbError::Query(e))) => spec_non_unique(*e),
            _ => false,
        }
    }

    fn is_violating_unique(&self) -> (r: bool) {
        match self {
            Result::Err(RepoError::Database(DbError::Query(e))) => non_unique_value_on_index(e),
            _ => false,
        }
    }
}

} // verus!
