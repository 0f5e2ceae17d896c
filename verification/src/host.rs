//! The hash primitive of the ledger host.

use crate::signer::{belongs_at, increasing};
use vstd::prelude::*;

verus! {

/// The SHA-256 digest of a byte string, as the ledger host computes it.
pub uninterp spec fn sha256_of(data: Seq<u8>) -> Seq<u8>;

/// Calls `soroban_sdk::crypto::Crypto::sha256` on a copy of `data` in a
/// fresh host environment with an unlimited budget. The contract claims that
/// the 32 bytes returned are a function of the bytes of `data` alone. The
/// host stores byte strings of at most `u32::MAX` bytes.
#[verifier::external_body]
pub(crate) fn sha256(data: &[u8]) -> (digest: [u8; 32])
    requires
        data@.len() <= u32::MAX,
    ensures
        digest@ == sha256_of(data@),
{
    let env = soroban_sdk::Env::new_with_config(
        soroban_sdk::testutils::EnvTestConfig { capture_snapshot_at_drop: false },
    );
    env.cost_estimate().budget().reset_unlimited();
    let bytes = soroban_sdk::Bytes::from_slice(&env, data);
    env.crypto().sha256(&bytes).to_array()
}

/// The host's vector type, which holds the registry index.
#[verifier::external_type_specification]
#[verifier::external_body]
#[verifier::reject_recursive_types(T)]
pub struct ExHostVec<T>(soroban_sdk::Vec<T>);

/// The host's type of byte strings of a fixed length.
#[verifier::external_type_specification]
#[verifier::external_body]
pub struct ExHostBytesN<const N: usize>(soroban_sdk::BytesN<N>);

/// The identifiers that a registry index holds, in its order.
pub uninterp spec fn index_ids(index: soroban_sdk::Vec<soroban_sdk::BytesN<32>>) -> Seq<Seq<u8>>;

/// Calls `soroban_sdk::Vec::new` in a fresh host environment with an
/// unlimited budget. The contract claims that the new index is empty.
#[verifier::external_body]
pub(crate) fn index_new() -> (index: soroban_sdk::Vec<soroban_sdk::BytesN<32>>)
    ensures
        index_ids(index) == Seq::<Seq<u8>>::empty(),
{
    let env = soroban_sdk::Env::new_with_config(
        soroban_sdk::testutils::EnvTestConfig { capture_snapshot_at_drop: false },
    );
    env.cost_estimate().budget().reset_unlimited();
    soroban_sdk::Vec::new(&env)
}

/// Calls `soroban_sdk::Vec::binary_search`. The host bisects by its order
/// on byte strings, which compares them byte by byte. The contract claims
/// that on a strictly increasing index `Ok` carries the position of `id`
/// and `Err` the position at which `id` belongs.
#[verifier::external_body]
pub(crate) fn index_search(
    index: &soroban_sdk::Vec<soroban_sdk::BytesN<32>>,
    id: &[u8; 32],
) -> (r: Result<u32, u32>)
    ensures
        increasing(index_ids(*index)) ==> match r {
            Ok(i) => i < index_ids(*index).len() && index_ids(*index)[i as int] == id@,
            Err(i) => belongs_at(index_ids(*index), i as int, id@),
        },
{
    index.binary_search(soroban_sdk::BytesN::from_array(index.env(), id))
}

/// Calls `soroban_sdk::Vec::insert`, which fails beyond the end of the
/// vector. The contract claims that `id` then stands at position `i`, with
/// what stood there and after it moved up by one.
#[verifier::external_body]
pub(crate) fn index_insert(
    index: &mut soroban_sdk::Vec<soroban_sdk::BytesN<32>>,
    i: u32,
    id: &[u8; 32],
)
    requires
        i <= index_ids(*old(index)).len(),
        index_ids(*old(index)).len() < u32::MAX,
    ensures
        index_ids(*final(index)) == index_ids(*old(index)).insert(i as int, id@),
{
    let item = soroban_sdk::BytesN::from_array(index.env(), id);
    index.insert(i, item);
}

/// Calls `soroban_sdk::Vec::remove`. The contract claims that the
/// identifier at position `i` is gone and what stood after it moved down by
/// one.
#[verifier::external_body]
pub(crate) fn index_remove(index: &mut soroban_sdk::Vec<soroban_sdk::BytesN<32>>, i: u32)
    requires
        i < index_ids(*old(index)).len(),
    ensures
        index_ids(*final(index)) == index_ids(*old(index)).remove(i as int),
{
    let _ = index.remove(i);
}

} // verus!
