//! The server configuration: bind address, database file, expiry policy
//! and the chunk-count limit. Values come from flags or the environment;
//! this module holds the record and the defaults.

use vstd::prelude::*;

verus! {

/// The server's configuration snapshot.
pub struct Config {
    /// Address the server listens on.
    pub bind_addr: String,
    /// File the store persists to.
    pub sqlite_db_filename: String,
    /// Seconds until an object expires; unset or zero disables reclamation.
    pub expiry: Option<usize>,
    /// Seconds between reclamation passes.
    pub delete_interval: u64,
    /// Largest sequence number a chunk may carry.
    pub chunk_count_limit: u64,
}

impl Config {
    /// Whether the reclamation worker runs at all: only with a nonzero
    /// expiry.
    pub fn gc_enabled(&self) -> (r: bool)
        ensures
            r <==> (self.expiry matches Some(e) && e > 0),
    {
        match self.expiry {
            Some(e) => e > 0,
            None => false,
        }
    }
}

impl Default for Config {
    /// The stock configuration: a local bind address, a file-local store,
    /// no expiry, a minute between reclamation passes, and at most 128
    /// chunks per object.
    fn default() -> (c: Config)
        ensures
            c.expiry is None,
            c.delete_interval == 60,
            c.chunk_count_limit == 128,
            1 <= c.chunk_count_limit <= crate::store::CHUNK_COUNT_LIMIT_MAX,
    {
        Config {
            bind_addr: "127.0.0.1:12321".to_owned(),
            sqlite_db_filename: "hako.db".to_owned(),
            expiry: None,
            delete_interval: 60,
            chunk_count_limit: 128,
        }
    }
}

} // verus!
