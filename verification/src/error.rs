//! The request-scoped error taxonomy, and the configuration-time registration
//! errors, which are categorically different (they halt composition, they are
//! never triggered by untrusted input).

use vstd::prelude::*;
use crate::identity::Identity;

verus! {

/// A request-scoped failure. None of these crashes the server; every mutating
/// operation that returns one leaves all state unchanged.
#[derive(Debug)]
pub enum OmniError {
    /// The request's destination is a concrete identity other than the
    /// server: the destination asked for, and the server's own identity.
    UnknownDestination(Identity, Identity),
    /// The method is neither a built-in nor a registered endpoint.
    InvalidMethodName(String),
    /// A non-anonymous request carried no verifiable signature.
    CouldNotVerifySignature,
    /// The operation referenced an account id that does not exist.
    UnknownAccount,
    /// A granted role is neither the owner role nor declared valid by a
    /// feature attached to the account.
    UnknownRole,
    /// The caller lacks the named role for a mutating operation.
    UserNeedsRole(String),
    /// The feature id is already present on the account.
    DuplicateFeature,
    /// A value could not be encoded.
    SerializationError,
    /// Argument bytes were malformed for the requested method.
    DeserializationError,
}

impl OmniError {
    /// The numeric code of this error kind, the value that wire responses and
    /// tests compare. Codes are distinct per kind.
    pub open spec fn spec_code(&self) -> u64 {
        match self {
            OmniError::UnknownDestination(_, _) => 1,
            OmniError::InvalidMethodName(_) => 2,
            OmniError::CouldNotVerifySignature => 3,
            OmniError::UnknownAccount => 4,
            OmniError::UnknownRole => 5,
            OmniError::UserNeedsRole(_) => 6,
            OmniError::DuplicateFeature => 7,
            OmniError::SerializationError => 8,
            OmniError::DeserializationError => 9,
        }
    }

    pub fn code(&self) -> (r: u64)
        ensures
            r == self.spec_code(),
    {
        match self {
            OmniError::UnknownDestination(_, _) => 1,
            OmniError::InvalidMethodName(_) => 2,
            OmniError::CouldNotVerifySignature => 3,
            OmniError::UnknownAccount => 4,
            OmniError::UnknownRole => 5,
            OmniError::UserNeedsRole(_) => 6,
            OmniError::DuplicateFeature => 7,
            OmniError::SerializationError => 8,
            OmniError::DeserializationError => 9,
        }
    }

    pub fn unknown_destination(to: Identity, server: Identity) -> (r: OmniError)
        ensures
            r == OmniError::UnknownDestination(to, server),
    {
        OmniError::UnknownDestination(to, server)
    }

    pub fn invalid_method_name(method: String) -> (r: OmniError)
        ensures
            r == OmniError::InvalidMethodName(method),
    {
        OmniError::InvalidMethodName(method)
    }

    pub fn unknown_account() -> (r: OmniError)
        ensures
            r == OmniError::UnknownAccount,
    {
        OmniError::UnknownAccount
    }

    pub fn unknown_role() -> (r: OmniError)
        ensures
            r == OmniError::UnknownRole,
    {
        OmniError::UnknownRole
    }

    /// The failure of every mutating account operation invoked by a caller
    /// without the owner role.
    pub fn user_needs_role(role: String) -> (r: OmniError)
        ensures
            r == OmniError::UserNeedsRole(role),
    {
        OmniError::UserNeedsRole(role)
    }

    pub fn duplicate_feature() -> (r: OmniError)
        ensures
            r == OmniError::DuplicateFeature,
    {
        OmniError::DuplicateFeature
    }
}

/// Whether an error is the owner-role refusal, carrying the literal "owner".
pub open spec fn is_user_needs_owner(e: OmniError) -> bool {
    e matches OmniError::UserNeedsRole(s) && s@ == "owner"@
}

/// A configuration-time fatal error: module registration found a collision.
/// This halts composition of the server; it is never a per-request condition.
#[derive(Clone, Copy, PartialEq, Eq, Structural, Debug)]
pub enum RegistrationError {
    /// Two registered modules advertise the same attribute id.
    AttributeConflict,
    /// Two registered modules advertise the same endpoint name.
    EndpointConflict,
}

} // verus!
