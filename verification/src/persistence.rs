use vstd::prelude::*;
use std::path::PathBuf;

verus! {

/// A filesystem path of `std`.
#[verifier::external_type_specification]
#[verifier::external_body]
pub struct ExPathBuf(std::path::PathBuf);

/// Where the overworld's chunks are saved: one file per chunk under a base directory.
pub struct ChunkPersistence {
    base_dir: PathBuf,
}

impl ChunkPersistence {
    /// The directory that holds the chunk files.
    pub closed spec fn dir(&self) -> PathBuf {
        self.base_dir
    }

    pub fn new(base_dir: PathBuf) -> (r: Self)
        ensures
            r.dir() == base_dir,
    {
        ChunkPersistence { base_dir }
    }

    pub fn base_dir(&self) -> (r: &PathBuf)
        ensures
            *r == self.dir(),
    {
        &self.base_dir
    }
}

} // verus!
