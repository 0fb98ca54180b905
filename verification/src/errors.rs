//! Error vocabulary: rejection markers for the HTTP surface and the typed
//! business failures of the storage gateway.

use vstd::prelude::*;

verus! {

/// The presented password does not match.
#[derive(Debug)]
pub struct WebInvalidPassword;

/// No such account, or the credentials were refused.
#[derive(Debug)]
pub struct WebInvalidUser;

/// Registration was refused.
#[derive(Debug)]
pub struct WebRegisterError {}

/// An internal channel was gone while answering a request.
#[derive(Debug)]
pub struct WebChannelsError;

/// The core actor did not answer a lookup.
#[derive(Debug)]
pub struct WebCoreLookupFailed;

/// The presented login token is not on record.
#[derive(Debug)]
pub struct WebInvalidLoginToken;

/// Faults while bringing the stream listener up.
#[derive(Debug)]
pub enum NetInternalError {
    ListenerBind(String),
}

/// Why a registration request failed.
#[derive(Debug, Clone, Copy, PartialEq, Eq, Structural)]
pub enum RegisterError {
    UserAlreadyExists,
    DbError,
    Unknown,
}

/// Why a login request failed.
#[derive(Debug, Clone, Copy, PartialEq, Eq, Structural)]
pub enum LoginError {
    InvalidEmail,
    InvalidPassword,
    DbError,
    Unknown,
}

} // verus!
