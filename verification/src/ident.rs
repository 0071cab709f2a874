//! Identifier codec: the database assigns opaque record identifiers; the
//! application works with string identifiers. Conversion is total and
//! fallible, never a crash.

use vstd::prelude::*;

verus! {

/// The key part of a database-assigned record identifier. The database can
/// assign keys of several shapes; the application accepts text keys only.
#[derive(Debug)]
pub enum RecordKey {
    Text(String),
    Number(i64),
    Other,
}

/// A database record identifier: a table name and a key within that table.
#[derive(Debug)]
pub struct Thing {
    pub table: String,
    pub key: RecordKey,
}

/// A record payload together with its identifier.
#[derive(Debug)]
pub struct Identified<T, Id> {
    pub id: Id,
    pub data: T,
}

/// A record payload identified by an application-level string identifier.
pub type StringIdentified<T> = Identified<T, String>;

impl<T, Id> Identified<T, Id> {
    pub fn new(id: Id, data: T) -> (r: Self)
        ensures
            r.id == id,
            r.data == data,
    {
        Self { id, data }
    }
}

/// Failure to convert a database identifier into a string identifier.
#[derive(Debug, PartialEq, Eq)]
pub enum IdConversionError {
    IdIsNotString,
}

/// Fallible conversion of a database-assigned identifier into an
/// application-level string identifier.
pub trait TryIntoStringId: Sized {
    type Output;

    /// What the conversion returns.
    spec fn string_id_spec(self) -> Result<Self::Output, IdConversionError>;

    fn try_into_string_id(self) -> (r: Result<Self::Output, IdConversionError>)
        ensures
            r == self.string_id_spec(),
    ;
}

impl TryIntoStringId for Thing {
    type Output = String;

    open spec fn string_id_spec(self) -> Result<String, IdConversionError> {
        match self.key {
            RecordKey::Text(s) => Result::Ok(s),
            RecordKey::Number(_) => Result::Err(IdConversionError::IdIsNotString),
            RecordKey::Other => Result::Err(IdConversionError::IdIsNotString),
        }
    }

    fn try_into_string_id(self) -> (r: Result<String, IdConversionError>) {
        match self.key {
            RecordKey::Text(s) => Result::Ok(s),
            RecordKey::Number(_) => Result::Err(IdConversionError::IdIsNotString),
            RecordKey::Other => Result::Err(IdConversionError::IdIsNotString),
        }
    }
}

impl<T> TryIntoStringId for Identified<T, Thing> {
    type Output = Identified<T, String>;

    open spec fn string_id_spec(self) -> Result<Identified<T, String>, IdConversionError> {
        match self.id.string_id_spec() {
            Result::Ok(s) => Result::Ok((Identified { id: s, data: self.data })),
            Result::Err(e) => Result::Err(e),
        }
    }

    fn try_into_string_id(self) -> (r: Result<Identified<T, String>, IdConversionError>) {
        match self.id.try_into_string_id() {
            Result::Ok(s) => Result::Ok(Identified::new(s, self.data)),
            Result::Err(e) => Result::Err(e),
        }
    }
}

/// Every identifier in the listing carries a text key.
pub open spec fn all_text_keys<T>(s: Seq<Identified<T, Thing>>) -> bool {
    forall|i: int| 0 <= i < s.len() ==> s[i].id.key is Text
}

/// `out` is `s` with every identifier replaced by its text key.
pub open spec fn converted_listing<T>(
    s: Seq<Identified<T, Thing>>,
    out: Seq<Identified<T, String>>,
) -> bool {
    &&& out.len() == s.len()
    &&& forall|i: int|
        0 <= i < s.len() ==> out[i].id == s[i].id.key->Text_0 && out[i].data == s[i].data
}

/// Converts a whole listing at once; a non-string identifier anywhere fails
/// the whole conversion.
pub fn try_into_string_ids<T>(v: Vec<Identified<T, Thing>>) -> (r: Result<
    Vec<Identified<T, String>>,
    IdConversionError,
>)
    ensures
        r is Ok <==> all_text_keys(v@),
        r is Ok ==> converted_listing(v@, r->Ok_0@),
        r is Err ==> r->Err_0 == IdConversionError::IdIsNotString,
{
    let ghost orig = v@;
    let mut rest = v;
    let mut out: Vec<Identified<T, String>> = Vec::new();
    let mut failed = false;
    let ghost mut done: int = 0;
    while rest.len() > 0
        invariant
            0 <= done <= orig.len(),
            rest@ =~= orig.skip(done),
            failed ==> !all_text_keys(orig),
            !failed ==> out@.len() == done,
            !failed ==> forall|i: int| 0 <= i < done ==> orig[i].id.key is Text,
            !failed ==> forall|i: int|
                0 <= i < done ==> out@[i].id == orig[i].id.key->Text_0 && out@[i].data
                    == orig[i].data,
        decreases rest@.len(),
    {
        let item = rest.remove(0);
        proof {
            assert(item == orig[done]);
            assert(rest@ =~= orig.skip(done + 1));
        }
        match item.try_into_string_id() {
            Result::Ok(converted) => {
                if !failed {
                    out.push(converted);
                }
            },
            Result::Err(_) => {
                proof {
                    assert(!(orig[done].id.key is Text));
                }
                failed = true;
            },
        }
        proof {
            done = done + 1;
        }
    }
    if failed {
        Result::Err(IdConversionError::IdIsNotString)
    } else {
        proof {
            assert(all_text_keys(orig));
            assert(converted_listing(orig, out@));
        }
        Result::Ok(out)
    }
}

} // verus!
