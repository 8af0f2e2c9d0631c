//! Errors that the server's own rules produce.

use vstd::prelude::*;

use crate::lapp::Permission;

verus! {

/// Why a request about a lapp was refused.
#[derive(Debug)]
pub enum ServerError {
    LappNotFound(String),
    LappNotEnabled(String),
    LappNotLoaded(String),
    LappPermissionDenied(String, Permission),
    LappServiceSendError(String),
    LappInitError(String),
    LappAlreadyExists(String),
    WrongLappDirectory(String),
    UnknownLappName,
    /// A value a lapp handed back could not be read.
    ResultNotParsed,
}

/// Why the server could not be set up.
#[derive(Debug, Clone, Copy, PartialEq, Eq, Structural)]
pub enum AppError {
    TokenGenerationFail,
    MissingPrivateKey,
}

} // verus!
