//! The configuration record: pool sizes and where chunks are stored.
use vstd::prelude::*;

use crate::memory::MemoryConfig;

verus! {

/// Settings of an S3-compatible object store.
pub struct S3Config {
    pub download_url: String,
    pub endpoint: String,
    pub region: String,
    pub bucket: String,
    pub key_id: String,
    pub application_key: String,
    pub upload_chunk_size: usize,
}

/// Where chunks are stored: an S3-compatible store, a directory, or neither yet.
pub struct StoreConfig {
    pub s3: Option<S3Config>,
    pub fs_root_path: Option<String>,
}

impl Default for StoreConfig {
    fn default() -> (r: Self)
        ensures
            r.s3.is_none(),
            r.fs_root_path.is_none(),
    {
        StoreConfig { s3: None, fs_root_path: None }
    }
}

/// The whole configuration.
pub struct Config {
    pub store: StoreConfig,
    pub memory: MemoryConfig,
}

} // verus!
