//! Configuration data the persistence core is set up from, with the
//! validation rules the surrounding application enforces before use.

use vstd::prelude::*;
use vstd::string::StrSliceExecFns;

use crate::migrations::MigratorConfig;

verus! {

/// The administrator account created at startup.
#[derive(Debug)]
pub struct AdminConfig {
    pub username: String,
    pub password: String,
}

impl AdminConfig {
    /// The configuration is accepted: both fields at least 4 characters.
    pub fn validate(&self) -> (r: bool)
        ensures
            r == (self.username@.len() >= 4 && self.password@.len() >= 4),
    {
        let u = self.username.as_str().unicode_len();
        let p = self.password.as_str().unicode_len();
        u >= 4 && p >= 4
    }
}

/// Where the database lives and which namespace and database to use, with
/// the migration directory that brings it up to date.
#[derive(Debug)]
pub struct DatabaseConfig {
    pub address: String,
    pub namespace: String,
    pub database: String,
    pub migrations: MigratorConfig,
}

/// How the log output is set up; consumed by the surrounding application.
#[derive(Debug)]
pub struct TracingConfig {
    pub directives: String,
    pub console: bool,
    pub json: Option<String>,
}

} // verus!
