use vstd::prelude::*;
use vstd::string::StringExecFns;
use crate::domain_actions::DomainActionTypes;

verus! {

/// Why an operation on the store was refused.
#[derive(Clone, Copy, Debug, PartialEq, Eq, Structural)]
pub enum ErrorCode {
    /// Another worker holds a lease on the action that has not run out.
    ConcurrencyError,
    /// A transition was asked of an action that has already reached a
    /// terminal state.
    BusinessProcessError,
    /// The action's payload does not fit its type, or the type is not known.
    ValidationError,
    /// No action has the id that was given.
    NoResults,
    /// The id is already taken: the store's uniqueness constraint refused
    /// the row.
    DuplicateKeyError,
    /// The connection pool has no connection left to hand out.
    ConnectionError,
    /// The row is in a state in which it cannot be changed any more.
    UpdateError,
}

/// The three families of failure that callers tell apart.
#[derive(Clone, Copy, Debug, PartialEq, Eq, Structural)]
pub enum ErrorKind {
    /// The storage layer failed or refused: connectivity, constraints,
    /// missing rows.
    Storage,
    /// The request breaks a rule of the domain.
    BusinessRule,
    /// A lease was lost to another worker; expected under concurrent
    /// polling.
    Concurrency,
}

/// The family a code belongs to.
pub open spec fn kind_of(code: ErrorCode) -> ErrorKind {
    match code {
        ErrorCode::ConcurrencyError => ErrorKind::Concurrency,
        ErrorCode::BusinessProcessError => ErrorKind::BusinessRule,
        ErrorCode::ValidationError => ErrorKind::BusinessRule,
        ErrorCode::NoResults => ErrorKind::Storage,
        ErrorCode::DuplicateKeyError => ErrorKind::Storage,
        ErrorCode::ConnectionError => ErrorKind::Storage,
        ErrorCode::UpdateError => ErrorKind::BusinessRule,
    }
}

/// An error of the store.
#[derive(Clone, Copy, Debug, PartialEq, Eq, Structural)]
pub struct DatabaseError {
    pub error_code: ErrorCode,
}

impl DatabaseError {
    /// The error with the given code.
    pub fn new(error_code: ErrorCode) -> (e: DatabaseError)
        ensures
            e.error_code == error_code,
    {
        DatabaseError { error_code }
    }

    /// The error of a lease that was lost to another worker.
    pub fn concurrency_error() -> (e: DatabaseError)
        ensures
            e.error_code == ErrorCode::ConcurrencyError,
    {
        DatabaseError { error_code: ErrorCode::ConcurrencyError }
    }

    /// The error of a transition that the state of the action forbids.
    pub fn business_process_error() -> (e: DatabaseError)
        ensures
            e.error_code == ErrorCode::BusinessProcessError,
    {
        DatabaseError { error_code: ErrorCode::BusinessProcessError }
    }

    /// The error of a request that is not valid.
    pub fn validation_error() -> (e: DatabaseError)
        ensures
            e.error_code == ErrorCode::ValidationError,
    {
        DatabaseError { error_code: ErrorCode::ValidationError }
    }

    /// The error of a search for a row that is not there.
    pub fn no_results() -> (e: DatabaseError)
        ensures
            e.error_code == ErrorCode::NoResults,
    {
        DatabaseError { error_code: ErrorCode::NoResults }
    }

    /// The family of this error: storage failures are kept apart from
    /// broken business rules and from lost lease races.
    pub fn kind(&self) -> (k: ErrorKind)
        ensures
            k == kind_of(self.error_code),
    {
        match self.error_code {
            ErrorCode::ConcurrencyError => ErrorKind::Concurrency,
            ErrorCode::BusinessProcessError => ErrorKind::BusinessRule,
            ErrorCode::ValidationError => ErrorKind::BusinessRule,
            ErrorCode::NoResults => ErrorKind::Storage,
            ErrorCode::DuplicateKeyError => ErrorKind::Storage,
            ErrorCode::ConnectionError => ErrorKind::Storage,
            ErrorCode::UpdateError => ErrorKind::BusinessRule,
        }
    }

    /// The text that describes the error to an operator.
    pub fn message(&self) -> (text: String)
        ensures
            text@ == message_of(self.error_code),
    {
        match self.error_code {
            ErrorCode::ConcurrencyError => String::from_str(
                "Another process is busy with this action",
            ),
            ErrorCode::BusinessProcessError => String::from_str(
                "The action has already reached a terminal state",
            ),
            ErrorCode::ValidationError => String::from_str("The action is not valid"),
            ErrorCode::NoResults => String::from_str("No results"),
            ErrorCode::DuplicateKeyError => String::from_str("Duplicate key"),
            ErrorCode::ConnectionError => String::from_str("Connection pool exhausted"),
            ErrorCode::UpdateError => String::from_str("The record cannot be modified"),
        }
    }
}

/// The operator-facing text of each code.
pub open spec fn message_of(code: ErrorCode) -> Seq<char> {
    match code {
        ErrorCode::ConcurrencyError => "Another process is busy with this action"@,
        ErrorCode::BusinessProcessError => "The action has already reached a terminal state"@,
        ErrorCode::ValidationError => "The action is not valid"@,
        ErrorCode::NoResults => "No results"@,
        ErrorCode::DuplicateKeyError => "Duplicate key"@,
        ErrorCode::ConnectionError => "Connection pool exhausted"@,
        ErrorCode::UpdateError => "The record cannot be modified"@,
    }
}

/// Why a dispatch pass failed.
#[derive(Clone, Copy, Debug, PartialEq, Eq, Structural)]
pub enum DomainActionError {
    /// No executor is registered for the type of an action that was due: the
    /// deployment is at fault, not the data.
    Configuration { action_type: DomainActionTypes },
    /// The store failed or refused.
    Database(DatabaseError),
}

} // verus!
