//! The inputs of an authentication attempt and the rules that scope it:
//! which requested operations need the sudo signer, which are never
//! authorized, and what the signature has to cover.

use crate::base64_url::encode_spec;
use crate::error::Error;
use crate::host::{sha256, sha256_of};
use crate::signer::{same_bytes, AccountState};
use vstd::prelude::*;

verus! {

/// A call of a contract function that the transaction asks to authorize.
#[derive(Clone, Debug)]
pub struct ContractContext {
    /// The address of the contract that is called.
    pub contract: [u8; 32],
    /// The name of the function that is called.
    pub fn_name: Vec<u8>,
}

/// One operation that the transaction asks to authorize.
#[derive(Clone, Debug)]
pub enum Context {
    /// A call of a contract function.
    Contract(ContractContext),
    /// The creation of a contract.
    CreateContractHostFn,
}

/// A presented WebAuthn assertion.
#[derive(Clone, Debug)]
pub struct Signature {
    /// The identifier of the signer that made the assertion.
    pub id: [u8; 32],
    /// The authenticator's own data.
    pub authenticator_data: Vec<u8>,
    /// The client data, a JSON document in UTF-8.
    pub client_data_json: Vec<u8>,
    /// The ECDSA signature, `r` then `s`.
    pub signature: [u8; 64],
}

/// What the host's secp256r1 primitive is to verify.
#[derive(Clone, Debug)]
pub struct VerifyRequest {
    /// The stored public key of the signer.
    pub public_key: [u8; 65],
    /// The digest that the signature has to cover.
    pub digest: [u8; 32],
    /// The presented signature.
    pub signature: [u8; 64],
}

/// The name `add_sig`.
pub open spec fn add_sig_name() -> Seq<u8> {
    seq![97u8, 100u8, 100u8, 95u8, 115u8, 105u8, 103u8]
}

/// The name `rm_sig`.
pub open spec fn rm_sig_name() -> Seq<u8> {
    seq![114u8, 109u8, 95u8, 115u8, 105u8, 103u8]
}

/// The name `resudo`.
pub open spec fn resudo_name() -> Seq<u8> {
    seq![114u8, 101u8, 115u8, 117u8, 100u8, 111u8]
}

/// Whether `name` is one of the entry points that change the registry.
pub open spec fn is_registry_entry_point(name: Seq<u8>) -> bool {
    name == add_sig_name() || name == rm_sig_name() || name == resudo_name()
}

/// Whether `name` is one of the entry points that change the registry.
pub fn names_registry_entry_point(name: &[u8]) -> (r: bool)
    ensures
        r == is_registry_entry_point(name@),
{
    let add: [u8; 7] = [97, 100, 100, 95, 115, 105, 103];
    let rm: [u8; 6] = [114, 109, 95, 115, 105, 103];
    let re: [u8; 6] = [114, 101, 115, 117, 100, 111];
    assert(add@ =~= add_sig_name());
    assert(rm@ =~= rm_sig_name());
    assert(re@ =~= resudo_name());
    same_bytes(name, add.as_slice()) || same_bytes(name, rm.as_slice()) || same_bytes(
        name,
        re.as_slice(),
    )
}

/// The view of an optional identifier.
pub open spec fn id_option_view(id: Option<[u8; 32]>) -> Option<Seq<u8>> {
    match id {
        Some(s) => Some(s@),
        None => None,
    }
}

/// Why one requested operation refuses the signer, if it does: a call of a
/// registry entry point on the account itself needs the sudo signer, and a
/// contract creation is never authorized.
pub open spec fn context_verdict(
    address: Seq<u8>,
    sudo: Option<Seq<u8>>,
    signer: Seq<u8>,
    c: Context,
) -> Option<Error> {
    match c {
        Context::Contract(call) => {
            if call.contract@ == address && is_registry_entry_point(call.fn_name@) {
                match sudo {
                    None => Some(Error::NotFound),
                    Some(s) => if s == signer {
                        None
                    } else {
                        Some(Error::NotPermitted)
                    },
                }
            } else {
                None
            }
        },
        Context::CreateContractHostFn => Some(Error::InvalidContext),
    }
}

/// The verdict of the first requested operation that refuses the signer.
pub open spec fn scope_verdict(
    address: Seq<u8>,
    sudo: Option<Seq<u8>>,
    signer: Seq<u8>,
    contexts: Seq<Context>,
) -> Option<Error>
    decreases contexts.len(),
{
    if contexts.len() == 0 {
        None
    } else {
        match context_verdict(address, sudo, signer, contexts[0]) {
            Some(e) => Some(e),
            None => scope_verdict(address, sudo, signer, contexts.subrange(1, contexts.len() as int)),
        }
    }
}

/// Judges one requested operation.
pub fn check_context(
    address: &[u8; 32],
    sudo: &Option<[u8; 32]>,
    signer: &[u8; 32],
    c: &Context,
) -> (r: Option<Error>)
    ensures
        r == context_verdict(address@, id_option_view(*sudo), signer@, *c),
{
    match c {
        Context::Contract(call) => {
            if same_bytes(call.contract.as_slice(), address.as_slice())
                && names_registry_entry_point(call.fn_name.as_slice()) {
                match sudo {
                    None => Some(Error::NotFound),
                    Some(s) => {
                        if same_bytes(s.as_slice(), signer.as_slice()) {
                            None
                        } else {
                            Some(Error::NotPermitted)
                        }
                    },
                }
            } else {
                None
            }
        },
        Context::CreateContractHostFn => Some(Error::InvalidContext),
    }
}

/// Judges the requested operations in order and reports the first refusal.
pub fn check_scope(
    address: &[u8; 32],
    sudo: &Option<[u8; 32]>,
    signer: &[u8; 32],
    contexts: &Vec<Context>,
) -> (r: Option<Error>)
    ensures
        r == scope_verdict(address@, id_option_view(*sudo), signer@, contexts@),
{
    let n: usize = contexts.len();
    let mut i: usize = 0;
    assert(contexts@.subrange(0, n as int) =~= contexts@);
    while i < n
        invariant
            n == contexts@.len(),
            i <= n,
            scope_verdict(address@, id_option_view(*sudo), signer@, contexts@) == scope_verdict(
                address@,
                id_option_view(*sudo),
                signer@,
                contexts@.subrange(i as int, n as int),
            ),
        decreases n - i,
    {
        let ghost rest = contexts@.subrange(i as int, n as int);
        assert(rest[0] == contexts@[i as int]);
        assert(rest.subrange(1, rest.len() as int) =~= contexts@.subrange(i + 1, n as int));
        match check_context(address, sudo, signer, &contexts[i]) {
            Some(e) => {
                return Some(e);
            },
            None => {},
        }
        i = i + 1;
    }
    assert(contexts@.subrange(n as int, n as int).len() == 0);
    None
}

/// What the signature has to cover before it is hashed: the authenticator
/// data followed by the digest of the client data.
pub open spec fn signature_base(sig: Signature) -> Seq<u8> {
    sig.authenticator_data@ + sha256_of(sig.client_data_json@)
}

/// The digest that the signature has to cover.
pub open spec fn signature_digest_spec(sig: Signature) -> Seq<u8> {
    sha256_of(signature_base(sig))
}

/// The host hashes byte strings of at most `u32::MAX` bytes.
pub open spec fn hashable(sig: Signature) -> bool {
    &&& sig.client_data_json@.len() <= u32::MAX
    &&& sig.authenticator_data@.len() + 32 <= u32::MAX
}

/// Appends `src` to `out`.
pub fn append_bytes(out: &mut Vec<u8>, src: &[u8])
    ensures
        final(out)@ == old(out)@ + src@,
{
    let mut i: usize = 0;
    while i < src.len()
        invariant
            i <= src@.len(),
            out@ == old(out)@ + src@.subrange(0, i as int),
        decreases src@.len() - i,
    {
        out.push(src[i]);
        assert(out@ =~= old(out)@ + src@.subrange(0, i + 1));
        i = i + 1;
    }
    assert(src@.subrange(0, src@.len() as int) =~= src@);
}

/// Computes the digest that the signature of an assertion has to cover.
pub fn signature_digest(sig: &Signature) -> (digest: [u8; 32])
    requires
        hashable(*sig),
    ensures
        digest@ == signature_digest_spec(*sig),
{
    let inner = sha256(sig.client_data_json.as_slice());
    let mut base: Vec<u8> = Vec::new();
    append_bytes(&mut base, sig.authenticator_data.as_slice());
    append_bytes(&mut base, inner.as_slice());
    assert(base@ =~= signature_base(*sig));
    sha256(base.as_slice())
}

/// Computes the digest where the host can hash the assertion, and `None`
/// where it is too long for the host.
pub fn try_signature_digest(sig: &Signature) -> (r: Option<[u8; 32]>)
    ensures
        r is Some <==> hashable(*sig),
        r is Some ==> r.unwrap()@ == signature_digest_spec(*sig),
{
    if sig.client_data_json.len() <= 0xffff_ffff && sig.authenticator_data.len() <= 0xffff_ffdf {
        Some(signature_digest(sig))
    } else {
        None
    }
}

/// Why an assertion is refused before its signature is looked at, if it is:
/// the verdict of the requested operations, or that the signer is not
/// registered.
pub open spec fn request_refusal(
    state: AccountState,
    sig: Signature,
    contexts: Seq<Context>,
) -> Option<Error> {
    match scope_verdict(state.address, state.sudo, sig.id@, contexts) {
        Some(e) => Some(e),
        None => if state.has(sig.id@) {
            None
        } else {
            Some(Error::NotFound)
        },
    }
}

/// The result of an authentication attempt: the requested operations are
/// judged first, then the signer is looked up, then the signature has to
/// verify, then the client data has to carry a challenge, and the challenge
/// has to be the encoding of the payload.
pub open spec fn check_outcome(
    state: AccountState,
    payload: Seq<u8>,
    sig: Signature,
    contexts: Seq<Context>,
    signature_valid: bool,
    challenge: Option<Seq<u8>>,
) -> Result<(), Error> {
    match request_refusal(state, sig, contexts) {
        Some(e) => Err(e),
        None => {
            if !signature_valid {
                Err(Error::Secp256r1VerifyFailed)
            } else {
                match challenge {
                    None => Err(Error::JsonParseError),
                    Some(c) => if c == encode_spec(payload) {
                        Ok(())
                    } else {
                        Err(Error::ClientDataJsonChallengeIncorrect)
                    },
                }
            }
        },
    }
}

/// Where some requested operation refuses the signer, the attempt is
/// refused.
pub proof fn lemma_scope_refuses(
    address: Seq<u8>,
    sudo: Option<Seq<u8>>,
    signer: Seq<u8>,
    contexts: Seq<Context>,
    i: int,
)
    requires
        0 <= i < contexts.len(),
        context_verdict(address, sudo, signer, contexts[i]) is Some,
    ensures
        scope_verdict(address, sudo, signer, contexts) is Some,
    decreases contexts.len(),
{
    if i > 0 {
        let rest = contexts.subrange(1, contexts.len() as int);
        assert(rest[i - 1] == contexts[i]);
        lemma_scope_refuses(address, sudo, signer, rest, i - 1);
    }
}

/// The verdict on the requested operations is that of the first operation
/// that refuses the signer.
pub proof fn lemma_scope_first_refusal(
    address: Seq<u8>,
    sudo: Option<Seq<u8>>,
    signer: Seq<u8>,
    contexts: Seq<Context>,
    i: int,
)
    requires
        0 <= i < contexts.len(),
        forall|j: int| 0 <= j < i ==> context_verdict(address, sudo, signer, #[trigger] contexts[j]) is None,
    ensures
        context_verdict(address, sudo, signer, contexts[i]) is Some ==> scope_verdict(
            address,
            sudo,
            signer,
            contexts,
        ) == context_verdict(address, sudo, signer, contexts[i]),
    decreases contexts.len(),
{
    if i > 0 {
        let rest = contexts.subrange(1, contexts.len() as int);
        assert(rest[i - 1] == contexts[i]);
        assert(context_verdict(address, sudo, signer, contexts[0]) is None);
        assert forall|j: int| 0 <= j < i - 1 implies context_verdict(
            address,
            sudo,
            signer,
            #[trigger] rest[j],
        ) is None by {
            assert(rest[j] == contexts[j + 1]);
        }
        lemma_scope_first_refusal(address, sudo, signer, rest, i - 1);
    }
}

/// With a sudo signer set and no contract creation requested, the only
/// refusal that the requested operations can give is `NotPermitted`.
pub proof fn lemma_scope_without_creation(
    address: Seq<u8>,
    sudo: Option<Seq<u8>>,
    signer: Seq<u8>,
    contexts: Seq<Context>,
)
    requires
        sudo is Some,
        forall|j: int| 0 <= j < contexts.len() ==> !((#[trigger] contexts[j]) is CreateContractHostFn),
    ensures
        scope_verdict(address, sudo, signer, contexts) is Some ==> scope_verdict(
            address,
            sudo,
            signer,
            contexts,
        ) == Some(Error::NotPermitted),
    decreases contexts.len(),
{
    if contexts.len() > 0 {
        let rest = contexts.subrange(1, contexts.len() as int);
        assert(!(contexts[0] is CreateContractHostFn));
        assert forall|j: int| 0 <= j < rest.len() implies !((#[trigger] rest[j]) is CreateContractHostFn) by {
            assert(rest[j] == contexts[j + 1]);
        }
        lemma_scope_without_creation(address, sudo, signer, rest);
    }
}

/// Whether `c` calls an entry point that changes the registry on the
/// account at `address`.
pub open spec fn changes_registry(address: Seq<u8>, c: Context) -> bool {
    match c {
        Context::Contract(call) => call.contract@ == address && is_registry_entry_point(
            call.fn_name@,
        ),
        Context::CreateContractHostFn => false,
    }
}

/// An assertion by a registered signer whose signature verifies and whose
/// client data carries the encoding of the payload is accepted, where no
/// requested operation refuses the signer.
pub proof fn lemma_valid_assertion_is_accepted(
    state: AccountState,
    payload: Seq<u8>,
    sig: Signature,
    contexts: Seq<Context>,
)
    requires
        request_refusal(state, sig, contexts) is None,
    ensures
        check_outcome(state, payload, sig, contexts, true, Some(encode_spec(payload))) is Ok,
{
}

/// An assertion that would be accepted is refused with
/// `ClientDataJsonChallengeIncorrect` as soon as its challenge is anything
/// but the encoding of the payload, so also where one character of it was
/// changed.
pub proof fn lemma_altered_challenge_is_refused(
    state: AccountState,
    payload: Seq<u8>,
    sig: Signature,
    contexts: Seq<Context>,
    challenge: Seq<u8>,
)
    requires
        check_outcome(state, payload, sig, contexts, true, Some(encode_spec(payload))) is Ok,
        challenge != encode_spec(payload),
    ensures
        check_outcome(state, payload, sig, contexts, true, Some(challenge)) == Err::<(), Error>(
            Error::ClientDataJsonChallengeIncorrect,
        ),
{
}

/// A request to change the registry that is signed by another signer than
/// the sudo signer is refused, whether or not the signature verifies. With
/// a sudo signer set and no contract creation among the requested
/// operations, the error is `NotPermitted`.
pub proof fn lemma_registry_change_needs_sudo(
    state: AccountState,
    payload: Seq<u8>,
    sig: Signature,
    contexts: Seq<Context>,
    i: int,
    signature_valid: bool,
    challenge: Option<Seq<u8>>,
)
    requires
        0 <= i < contexts.len(),
        changes_registry(state.address, contexts[i]),
        state.sudo != Some(sig.id@),
    ensures
        check_outcome(state, payload, sig, contexts, signature_valid, challenge) is Err,
        state.sudo is Some && (forall|j: int|
            0 <= j < contexts.len() ==> !((#[trigger] contexts[j]) is CreateContractHostFn))
            ==> check_outcome(state, payload, sig, contexts, signature_valid, challenge) == Err::<
            (),
            Error,
        >(Error::NotPermitted),
{
    lemma_scope_refuses(state.address, state.sudo, sig.id@, contexts, i);
    if state.sudo is Some && (forall|j: int|
        0 <= j < contexts.len() ==> !((#[trigger] contexts[j]) is CreateContractHostFn)) {
        lemma_scope_without_creation(state.address, state.sudo, sig.id@, contexts);
    }
}

/// A requested contract creation refuses the attempt, whether or not the
/// signature verifies. The error is `InvalidContext` where no operation
/// requested before the creation refuses the signer.
pub proof fn lemma_creation_is_refused(
    state: AccountState,
    payload: Seq<u8>,
    sig: Signature,
    contexts: Seq<Context>,
    i: int,
    signature_valid: bool,
    challenge: Option<Seq<u8>>,
)
    requires
        0 <= i < contexts.len(),
        contexts[i] is CreateContractHostFn,
    ensures
        check_outcome(state, payload, sig, contexts, signature_valid, challenge) is Err,
        (forall|j: int|
            0 <= j < i ==> context_verdict(state.address, state.sudo, sig.id@, #[trigger] contexts[j])
                is None) ==> check_outcome(
            state,
            payload,
            sig,
            contexts,
            signature_valid,
            challenge,
        ) == Err::<(), Error>(Error::InvalidContext),
{
    lemma_scope_refuses(state.address, state.sudo, sig.id@, contexts, i);
    if forall|j: int|
        0 <= j < i ==> context_verdict(state.address, state.sudo, sig.id@, #[trigger] contexts[j])
            is None {
        lemma_scope_first_refusal(state.address, state.sudo, sig.id@, contexts, i);
    }
}

} // verus!
