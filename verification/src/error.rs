//! The failures that the registry and the verifier report.

use vstd::prelude::*;

verus! {

/// Why a registry operation or an authentication attempt was refused.
#[derive(Copy, Clone, Eq, PartialEq, Debug, Structural)]
pub enum Error {
    /// A referenced signer id, or the sudo reference, is absent.
    NotFound,
    /// The signer lacks the privilege for the operation, the signer is
    /// already registered, or the sudo signer was to be removed.
    NotPermitted,
    /// The challenge in the client data is not the encoding of the payload.
    ClientDataJsonChallengeIncorrect,
    /// The public key is malformed.
    Secp256r1PublicKeyParse,
    /// The signature is malformed.
    Secp256r1SignatureParse,
    /// The signature does not verify under the stored public key.
    Secp256r1VerifyFailed,
    /// The client data is not JSON or has no challenge field.
    JsonParseError,
    /// A requested operation is a contract creation.
    InvalidContext,
}

impl Error {
    /// The number under which the error is reported to the host.
    pub open spec fn spec_code(self) -> u32 {
        match self {
            Error::NotFound => 1,
            Error::NotPermitted => 2,
            Error::ClientDataJsonChallengeIncorrect => 3,
            Error::Secp256r1PublicKeyParse => 4,
            Error::Secp256r1SignatureParse => 5,
            Error::Secp256r1VerifyFailed => 6,
            Error::JsonParseError => 7,
            Error::InvalidContext => 8,
        }
    }

    /// The number under which the error is reported to the host.
    pub fn code(self) -> (c: u32)
        ensures
            c == self.spec_code(),
            1 <= c <= 8,
    {
        match self {
            Error::NotFound => 1,
            Error::NotPermitted => 2,
            Error::ClientDataJsonChallengeIncorrect => 3,
            Error::Secp256r1PublicKeyParse => 4,
            Error::Secp256r1SignatureParse => 5,
            Error::Secp256r1VerifyFailed => 6,
            Error::JsonParseError => 7,
            Error::InvalidContext => 8,
        }
    }
}

} // verus!
