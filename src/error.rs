//! The errors of the repository operations.
use vstd::prelude::*;

use crate::entity::{AccountId, Conditional, EntryId};

verus! {

/// Why an append did not commit.
#[derive(Debug)]
pub enum AppendEntriesError {
    /// The HEAD moved since it was read.
    OptimisticLockError(AccountId),
    /// These entry ids already have a live entry in the account (or repeat in the batch).
    EntriesAlreadyExists(AccountId, Vec<EntryId>),
    /// The entry's precondition does not hold after it is applied.
    ConditionFailed(EntryId, Conditional),
    Other(String),
}

/// Why a revert did not commit.
#[derive(Debug)]
pub enum RevertEntriesError {
    OptimisticLockError(AccountId),
    /// These entry ids have no live entry in the account.
    EntriesDoesNotExists(AccountId, Vec<EntryId>),
    Other(String),
}

/// Why a read failed.
#[derive(Debug)]
pub enum GetBalanceError {
    NotFound(AccountId),
    MissingField(String),
    ErrorReadingField(String),
    Other(String),
}

impl AppendEntriesError {
    pub fn message(&self) -> (r: String)
        ensures
            self matches AppendEntriesError::Other(m) ==> r@ == m@,
    {
        match self {
            AppendEntriesError::OptimisticLockError(_) => String::from_str("Optimistic lock error in updating HEAD of account"),
            AppendEntriesError::EntriesAlreadyExists(_, _) => String::from_str("Entries already exist in account"),
            AppendEntriesError::ConditionFailed(_, _) => String::from_str("Conditional check failed for entry"),
            AppendEntriesError::Other(m) => m.clone(),
        }
    }
}

impl RevertEntriesError {
    /// A failed append inside a revert: a moved HEAD stays a lock failure,
    /// anything else becomes `Other`.
    pub fn from_append(value: AppendEntriesError) -> (r: RevertEntriesError)
        ensures
            value matches AppendEntriesError::OptimisticLockError(a) ==> r == RevertEntriesError::OptimisticLockError(a),
            !(value is OptimisticLockError) ==> r is Other,
    {
        match value {
            AppendEntriesError::OptimisticLockError(a) => RevertEntriesError::OptimisticLockError(a),
            other => RevertEntriesError::Other(other.message()),
        }
    }

    pub fn message(&self) -> (r: String)
        ensures
            self matches RevertEntriesError::Other(m) ==> r@ == m@,
    {
        match self {
            RevertEntriesError::OptimisticLockError(_) => String::from_str("Optimistic lock error in updating HEAD of account"),
            RevertEntriesError::EntriesDoesNotExists(_, _) => String::from_str("Entries do not exist in account"),
            RevertEntriesError::Other(m) => m.clone(),
        }
    }
}

} // verus!
