//! Error kinds of the cache.

use vstd::prelude::*;

verus! {

/// What a cache operation can fail with.  Connection failures abort a
/// whole run; directory and file read failures abort one discovery pass;
/// row-level failures abort the enclosing phase.
#[derive(Debug)]
pub enum CacheError {
    DirReadError(std::io::Error),
    ConnectionError(rusqlite::Error),
    TransactionError(rusqlite::Error),
    FileReadError(std::io::Error),
    DbInsertError(rusqlite::Error),
    DbSelectError(rusqlite::Error),
    DbDeleteError(rusqlite::Error),
    DbUpdateError(rusqlite::Error),
}

pub open spec fn describe_spec(e: CacheError) -> Seq<char> {
    match e {
        CacheError::DirReadError(_) => "Failed to read directory"@,
        CacheError::ConnectionError(_) => "Failed to open connection"@,
        CacheError::TransactionError(_) => "Failed to do transaction"@,
        CacheError::FileReadError(_) => "Failed to read file"@,
        CacheError::DbInsertError(_) => "Failed to insert row"@,
        CacheError::DbSelectError(_) => "Failed to select row"@,
        CacheError::DbDeleteError(_) => "Failed to delete row"@,
        CacheError::DbUpdateError(_) => "Failed to update row"@,
    }
}

impl CacheError {
    /// A short, fixed description of the error kind.
    pub fn describe(&self) -> (r: &'static str)
        ensures
            r@ == describe_spec(*self),
    {
        match self {
            CacheError::DirReadError(_) => "Failed to read directory",
            CacheError::ConnectionError(_) => "Failed to open connection",
            CacheError::TransactionError(_) => "Failed to do transaction",
            CacheError::FileReadError(_) => "Failed to read file",
            CacheError::DbInsertError(_) => "Failed to insert row",
            CacheError::DbSelectError(_) => "Failed to select row",
            CacheError::DbDeleteError(_) => "Failed to delete row",
            CacheError::DbUpdateError(_) => "Failed to update row",
        }
    }
}

} // verus!
