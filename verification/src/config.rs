//! Configuration: where the backing store lives. Loading it from files or
//! the environment is the embedding application's concern; the default
//! points at a local database file.

use vstd::prelude::*;

verus! {

/// The service configuration.
pub struct Config {
    pub database_url: String,
}

impl Default for Config {
    /// The default configuration: a local database file.
    fn default() -> (r: Self)
        ensures
            r.database_url@ == "sqlite:test.db"@,
    {
        Config { database_url: "sqlite:test.db".to_owned() }
    }
}

} // verus!
