//! What can go wrong in a table or an index.

use vstd::prelude::*;

verus! {

/// The failures of the tables and indexes.
#[derive(Clone, Copy, Debug, PartialEq, Eq, Structural)]
pub enum StoreError {
    /// A load found nothing under the primary key.
    NotFound,
    /// Stored bytes are not what an index writes: a length or a cached
    /// record cannot be read back from them.
    Deserialize,
    /// An index entry leads to a primary key that the table does not hold.
    Corruption,
    /// A unique index already holds the derived key for another primary key.
    DuplicateKey,
}

impl StoreError {
    /// A short description of the failure.
    pub fn message(&self) -> (s: &'static str)
        ensures
            s@ == match *self {
                StoreError::NotFound => "not found"@,
                StoreError::Deserialize => "stored bytes do not decode"@,
                StoreError::Corruption => "pk not found"@,
                StoreError::DuplicateKey => "Violates unique constraint on index"@,
            },
    {
        match self {
            StoreError::NotFound => "not found",
            StoreError::Deserialize => "stored bytes do not decode",
            StoreError::Corruption => "pk not found",
            StoreError::DuplicateKey => "Violates unique constraint on index",
        }
    }
}

} // verus!
