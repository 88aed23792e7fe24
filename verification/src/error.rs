use vstd::prelude::*;
use vstd::string::*;

verus! {

/// Why an operation was refused. Every refusal leaves the state as it was.
#[derive(Clone, Copy, Debug, PartialEq, Eq, Structural)]
pub enum LedgerError {
    /// The acting identity lacks the permission that the mutation needs.
    Unauthorized,
    /// The entity that the request refers to is unknown.
    NotFound,
    /// An input lies outside its domain.
    ValidationError,
    /// The request duplicates something that already exists.
    Conflict,
    /// The store cannot take the write, or holds a record that cannot be read.
    StorageError,
}

impl LedgerError {
    /// A short, fixed description of the error.
    pub fn message(&self) -> (text: String)
        ensures
            text@ == match *self {
                LedgerError::Unauthorized => "unauthorized"@,
                LedgerError::NotFound => "not found"@,
                LedgerError::ValidationError => "validation error"@,
                LedgerError::Conflict => "conflict"@,
                LedgerError::StorageError => "storage error"@,
            },
    {
        match self {
            LedgerError::Unauthorized => String::from_str("unauthorized"),
            LedgerError::NotFound => String::from_str("not found"),
            LedgerError::ValidationError => String::from_str("validation error"),
            LedgerError::Conflict => String::from_str("conflict"),
            LedgerError::StorageError => String::from_str("storage error"),
        }
    }
}

} // verus!
