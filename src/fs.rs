use vstd::prelude::*;

verus! {

/// Why a file could not be read.
#[derive(Clone, Copy, Debug, PartialEq, Eq, Structural)]
pub enum FsError {
    NotFound,
}

/// The real file system, used by default. Its lookups are performed by the
/// program that embeds the library.
#[derive(Clone, Copy, Debug)]
pub struct StdFs;

/// A file system that acts as if it were completely empty: every lookup
/// fails, so file-based directives cannot reach any host data.
#[derive(Clone, Copy, Debug)]
pub struct NullFs;

impl NullFs {
    pub fn is_file(&self, _path: &str) -> (r: bool)
        ensures
            !r,
    {
        false
    }

    pub fn is_dir(&self, _path: &str) -> (r: bool)
        ensures
            !r,
    {
        false
    }

    pub fn read(&self, _path: &str) -> (r: Result<Vec<u8>, FsError>)
        ensures
            r == Err::<Vec<u8>, FsError>(FsError::NotFound),
    {
        Err(FsError::NotFound)
    }
}

} // verus!
