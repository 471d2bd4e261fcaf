use vstd::prelude::*;

verus! {

/// Why a storage operation was refused or failed.
#[derive(Clone, Copy, Debug, PartialEq, Eq)]
pub enum StorageError {
    /// The request contradicts durable state or the inventory's rules.
    CommandConflict,
    /// A filesystem operation failed.
    Io { operation: &'static str },
    /// A database operation failed.
    Sqlite { operation: &'static str },
}

} // verus!
