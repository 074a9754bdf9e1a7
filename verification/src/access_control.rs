//! Errors of the wallet-linking flow.
//!
//! The challenge/signature flow itself talks to an external identity
//! provider and lives outside this crate; the engine only surfaces its
//! failures.

use vstd::prelude::*;

verus! {

/// Failure of a sign-in or wallet-linking request.
#[derive(Debug)]
pub enum SignInError {
    CallError(String),
    NoSession(String),
    WalletAlreadyLinked,
    InvalidAddress,
}

} // verus!
