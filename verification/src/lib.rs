//! Passkey account authentication: a sorted registry of signers with one
//! distinguished sudo signer, and the verifier that decides whether a
//! WebAuthn assertion authorizes a set of requested operations.

pub mod error;
pub mod base64_url;
pub mod host;
pub mod signer;
pub mod auth;
pub mod account;

pub use crate::account::Contract;
pub use crate::auth::{Context, ContractContext, Signature, VerifyRequest};
pub use crate::error::Error;
pub use crate::signer::SignerRecord;
