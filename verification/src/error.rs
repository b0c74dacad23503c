//! The one error type of the engine.

use vstd::prelude::*;
use vstd::string::*;

verus! {

/// Why an operation of the engine did not succeed.
#[derive(Debug)]
pub enum Error {
    /// The store itself failed (I/O, corruption, misuse); the text is the
    /// store's own account of it.
    DbError(String),
    /// Stored bytes are not a valid record.
    EncodingError,
    /// A transaction was given up.
    TransactionAbortError,
    /// A transaction ran into another one.
    TransactionConflictError,
    /// The store failed inside a transaction.
    TransactionStorageError,
    /// A looked-up entry is not there.
    EntryNotFound,
    NoSuchUser,
    NoSuchDir,
    NoSuchFile,
    /// The group, permission record or user that an operation aims at is not there.
    NoSuchTarget,
    /// Something the engine relies on was already broken before the call.
    InconsistentDbState,
    /// The operation would remove a user's root directory.
    ForbiddenAction,
    /// The acting user may not do this.
    MissingAuthorization,
    /// An argument is malformed or a list is too long to be stored.
    BadCall,
    /// The name is already taken.
    TargetExists,
}

impl Error {
    /// True for the errors that the store raises on its own account, whatever
    /// the operation and the state were.
    pub open spec fn is_store_failure(self) -> bool {
        self is DbError || self is TransactionConflictError
    }

    /// What the error says of itself to a reader.
    pub open spec fn message_text(self) -> Seq<char> {
        match self {
            Error::DbError(e) => "DB-Error: "@ + e@,
            Error::EncodingError => "Could not decode data."@,
            Error::TransactionAbortError => "TransactionError: Abort"@,
            Error::TransactionConflictError => "TransactionError: Conflict"@,
            Error::TransactionStorageError => "TransactionError: StorageError"@,
            Error::EntryNotFound => "The given entry was not found in the DB."@,
            Error::NoSuchUser => "The given user does not exist in the DB."@,
            Error::NoSuchDir => "The given directory does not exist in the DB."@,
            Error::NoSuchFile => "The given file does not exist in the DB."@,
            Error::NoSuchTarget => "The given target does not exist in the DB."@,
            Error::InconsistentDbState => "The DB was found in an inconsisten state."@,
            Error::ForbiddenAction => "Tried an action, that would result in a forbidden state."@,
            Error::MissingAuthorization =>
                "The given user/group does not have the necessary permission for the given action."@,
            Error::BadCall => "Unexpected arguments."@,
            Error::TargetExists => "Target exists."@,
        }
    }

    /// What the error says of itself to a reader.
    pub fn message(&self) -> (text: String)
        ensures
            text@ == self.message_text(),
    {
        match self {
            Error::DbError(e) => "DB-Error: ".to_owned().concat(e.as_str()),
            Error::EncodingError => "Could not decode data.".to_owned(),
            Error::TransactionAbortError => "TransactionError: Abort".to_owned(),
            Error::TransactionConflictError => "TransactionError: Conflict".to_owned(),
            Error::TransactionStorageError => "TransactionError: StorageError".to_owned(),
            Error::EntryNotFound => "The given entry was not found in the DB.".to_owned(),
            Error::NoSuchUser => "The given user does not exist in the DB.".to_owned(),
            Error::NoSuchDir => "The given directory does not exist in the DB.".to_owned(),
            Error::NoSuchFile => "The given file does not exist in the DB.".to_owned(),
            Error::NoSuchTarget => "The given target does not exist in the DB.".to_owned(),
            Error::InconsistentDbState => "The DB was found in an inconsisten state.".to_owned(),
            Error::ForbiddenAction => "Tried an action, that would result in a forbidden state."
                .to_owned(),
            Error::MissingAuthorization =>
                "The given user/group does not have the necessary permission for the given action."
                .to_owned(),
            Error::BadCall => "Unexpected arguments.".to_owned(),
            Error::TargetExists => "Target exists.".to_owned(),
        }
    }

    /// Tells store failures from the errors that an operation decides on.
    pub fn store_failure(&self) -> (b: bool)
        ensures
            b == self.is_store_failure(),
    {
        match self {
            Error::DbError(_) => true,
            Error::TransactionConflictError => true,
            _ => false,
        }
    }
}

/// Whether `r` is what `expected` says. A failure of the store may come at
/// any time; an error that the operation decides on is the expected one.
pub open spec fn answers<T: DeepView>(r: Result<T, Error>, expected: Result<T::V, Error>) -> bool {
    match r {
        Ok(v) => expected == Ok::<T::V, Error>(v.deep_view()),
        Err(e) => e.is_store_failure() || expected == Err::<T::V, Error>(e),
    }
}

} // verus!
