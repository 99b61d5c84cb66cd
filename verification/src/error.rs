//! The failures that the operations on accounts and todo lists report.
//!
//! All of them are recovered from locally: the operation is abandoned, the
//! store is left as it was, and the session goes on.

use vstd::prelude::*;

verus! {

/// Why an operation on accounts was refused.
#[derive(Debug, Clone, Copy, PartialEq, Eq, Structural)]
pub enum CredentialError {
    /// Another account already has the login.
    DuplicateLogin,
    /// Another account already has the id.
    DuplicateId,
    /// No account has the login, or the password is not the account's. The
    /// two are not told apart, so that a caller cannot learn which logins
    /// exist.
    NotFound,
    /// The new password is the account's current one.
    SameAsCurrent,
    /// No account has the id.
    NoSuchAccount,
    /// The password could not be hashed.
    HashingFailed,
    /// No further account id can be assigned.
    IdsExhausted,
}

/// Why an operation on todo lists or tasks was refused.
#[derive(Debug, Clone, Copy, PartialEq, Eq, Structural)]
pub enum TodoError {
    /// No account has the owner id.
    UnknownOwner,
    /// The owner has no list of that name.
    ListNotFound,
    /// The position does not name a task of the list.
    IndexOutOfRange,
}

} // verus!
