//! The user repository: holds the single administrator account, stored
//! under a fixed key with a hashed password, and answers whether supplied
//! credentials identify that account.

use vstd::prelude::*;
use vstd::string::StringExecFns;

use crate::digest::{hashed_password, password_hash};
use crate::errors::{DbError, DriverError, RepoError};
use crate::store::{find_user, find_user_index, lemma_user_key_free, Store, UserRow};
use crate::text::str_eq;

verus! {

/// The per-request repository for users; it borrows the shared store on
/// each call.
pub struct UserRepository {}

impl UserRepository {
    pub fn new() -> (r: Self) {
        UserRepository {}
    }

    /// Computes the hash under which a user's password is stored.
    pub fn hash_password(password: &str) -> (r: String)
        ensures
            r@ == hashed_password(password@),
    {
        password_hash(password)
    }

    /// Creates the administrator account, unless one already exists: the
    /// fixed record key collides and the write is refused.
    pub fn try_create(&self, store: &mut Store, username: &str, password: &str) -> (r: Result<
        (),
        RepoError,
    >)
        requires
            old(store).wf(),
        ensures
            final(store).wf(),
            r is Ok <==> find_user(old(store).users@, "admin"@) is None,
            r is Err ==> *final(store) == *old(store) && (r->Err_0 matches RepoError::Database(
                DbError::Query(DriverError::RecordExists { table, key }),
            ) && table@ == "user"@ && key@ == "admin"@),
            r is Ok ==> ({
                let row = final(store).users@.last();
                &&& final(store).users@ == old(store).users@.push(row)
                &&& row.key@ == "admin"@
                &&& row.username@ == username@
                &&& row.password_hash@ == hashed_password(password@)
                &&& final(store).next_key == old(store).next_key
                &&& final(store).samples == old(store).samples
                &&& final(store).experiments == old(store).experiments
                &&& final(store).experiment_samples == old(store).experiment_samples
                &&& final(store).results == old(store).results
                &&& final(store).sample_results == old(store).sample_results
            }),
    {
        match find_user_index(&store.users, "admin") {
            Option::Some(_) => Result::Err(
                RepoError::Database(
                    DbError::Query(
                        DriverError::RecordExists {
                            table: String::from_str("user"),
                            key: String::from_str("admin"),
                        },
                    ),
                ),
            ),
            Option::None => {
                proof {
                    lemma_user_key_free(store.users@, "admin"@);
                }
                let row = UserRow {
                    key: String::from_str("admin"),
                    username: String::from_str(username),
                    password_hash: password_hash(password),
                };
                store.users.push(row);
                proof {
                    assert forall|i: int, j: int| 0 <= i < j < store.users@.len() implies (
                    #[trigger] store.users@[i]).key@ != (#[trigger] store.users@[j]).key@ by {
                        if j < store.users@.len() - 1 {
                            assert(store.users@[i] == old(store).users@[i]);
                            assert(store.users@[j] == old(store).users@[j]);
                        } else {
                            assert(store.users@[i] == old(store).users@[i]);
                            assert(store.users@[j].key@ == "admin"@);
                        }
                    }
                }
                Result::Ok(())
            },
        }
    }

    /// Answers whether the supplied credentials identify the administrator
    /// account: the stored row must carry this user name and the hash of
    /// this password.
    pub fn is_admin(&self, store: &Store, username: &str, password: &str) -> (r: Result<
        bool,
        RepoError,
    >)
        ensures
            r is Ok,
            r->Ok_0 == match find_user(store.users@, "admin"@) {
                Option::Some(u) => u.username@ == username@ && u.password_hash@
                    == hashed_password(password@),
                Option::None => false,
            },
    {
        let hash = password_hash(password);
        match find_user_index(&store.users, "admin") {
            Option::Some(i) => {
                let row = &store.users[i];
                let matches_name = str_eq(row.username.as_str(), username);
                let matches_hash = str_eq(row.password_hash.as_str(), hash.as_str());
                Result::Ok(matches_name && matches_hash)
            },
            Option::None => Result::Ok(false),
        }
    }
}

} // verus!
