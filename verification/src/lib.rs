//! An academic-record keeper: role registry, class rosters, a grade
//! ledger and per-student access grants, guarded by a capability check
//! on every command.
//!
//! The hosting environment resolves the caller's identity and owns the
//! durable storage; here every command takes the caller explicitly and
//! the whole state lives in one [`state::Transcipt`] value.

use vstd::prelude::*;

pub mod access;
pub mod assoc;
pub mod classes;
pub mod grades;
pub mod laws;
pub mod roles;
pub mod state;

pub use state::Transcipt;

verus! {

/// An opaque, comparable account identity. The hosting environment
/// issues and verifies identities; the record keeper only compares them.
#[derive(Clone, Copy, Debug, PartialEq, Eq, Structural, Hash)]
pub struct AccountId(pub u64);

/// The two failure kinds every command can report.
#[derive(Clone, Copy, Debug, PartialEq, Eq, Structural)]
pub enum Error {
    /// The request violates a referential or uniqueness constraint:
    /// a duplicate id, an unknown class, teacher or student, or a
    /// student who is not enrolled where the request assumes they are.
    InvalidInput,
    /// The caller lacks the role or ownership relationship that the
    /// requested operation demands.
    AccessNotAllowed,
}

} // verus!
