//! Signer identifiers, their order, and the mathematical model of an
//! account: the sorted registry of signers and the sudo reference.

use vstd::prelude::*;

verus! {

/// One registered signer: its identifier, its public key and the remaining
/// lifetime of its key record.
#[derive(Clone, Copy, Debug)]
pub struct SignerRecord {
    pub id: [u8; 32],
    pub public_key: [u8; 65],
    pub ttl: u32,
}

/// The number that the first `n` bytes of `s` spell, most significant byte
/// first.
pub open spec fn prefix_value(s: Seq<u8>, n: nat) -> nat
    decreases n,
{
    if n == 0 {
        0
    } else {
        prefix_value(s, (n - 1) as nat) * 256 + s[n - 1] as nat
    }
}

/// The number by which identifiers are ordered: the identifier read as a
/// big-endian integer, so that the numeric order of identifiers of one
/// length is their lexicographic order.
pub open spec fn id_value(id: Seq<u8>) -> nat {
    prefix_value(id, id.len())
}

/// Byte strings that agree on their first `n` bytes have the same prefix
/// value.
pub proof fn lemma_same_prefix(a: Seq<u8>, b: Seq<u8>, n: nat)
    requires
        n <= a.len(),
        n <= b.len(),
        forall|j: int| 0 <= j < n ==> a[j] == b[j],
    ensures
        prefix_value(a, n) == prefix_value(b, n),
    decreases n,
{
    if n > 0 {
        lemma_same_prefix(a, b, (n - 1) as nat);
    }
}

/// Once a prefix of `a` is below the same prefix of `b`, every longer prefix
/// is too.
pub proof fn lemma_prefix_order(a: Seq<u8>, b: Seq<u8>, k: nat, n: nat)
    requires
        k <= n,
        n <= a.len(),
        n <= b.len(),
        prefix_value(a, k) < prefix_value(b, k),
    ensures
        prefix_value(a, n) < prefix_value(b, n),
    decreases n,
{
    if n > k {
        lemma_prefix_order(a, b, k, (n - 1) as nat);
    }
}

/// Among byte strings of one length, the order by `id_value` is the
/// lexicographic order: `a` is below `b` exactly when they differ and `a`
/// has the smaller byte at the first position where they do.
pub proof fn lemma_order_is_lexicographic(a: Seq<u8>, b: Seq<u8>, k: int)
    requires
        a.len() == b.len(),
        0 <= k < a.len(),
        forall|j: int| 0 <= j < k ==> a[j] == b[j],
        a[k] != b[k],
    ensures
        (id_value(a) < id_value(b)) == (a[k] < b[k]),
        (id_value(b) < id_value(a)) == (b[k] < a[k]),
{
    lemma_same_prefix(a, b, k as nat);
    if a[k] < b[k] {
        assert(prefix_value(a, (k + 1) as nat) < prefix_value(b, (k + 1) as nat));
        lemma_prefix_order(a, b, (k + 1) as nat, a.len());
    } else {
        assert(prefix_value(b, (k + 1) as nat) < prefix_value(a, (k + 1) as nat));
        lemma_prefix_order(b, a, (k + 1) as nat, a.len());
    }
}

/// A sequence of identifiers is strictly increasing in their order.
pub open spec fn increasing(ids: Seq<Seq<u8>>) -> bool {
    forall|i: int, j: int| 0 <= i < j < ids.len() ==> id_value(#[trigger] ids[i]) < id_value(#[trigger] ids[j])
}

/// Position `pos` is where `id` belongs among `ids`: every identifier
/// before it is below `id` and every identifier from it on is above `id`.
pub open spec fn belongs_at(ids: Seq<Seq<u8>>, pos: int, id: Seq<u8>) -> bool {
    &&& 0 <= pos <= ids.len()
    &&& forall|j: int| 0 <= j < pos ==> id_value(#[trigger] ids[j]) < id_value(id)
    &&& forall|j: int| pos <= j < ids.len() ==> id_value(id) < id_value(#[trigger] ids[j])
}

/// How one identifier stands to another in the registry's order.
#[derive(Clone, Copy, Debug, PartialEq, Eq, Structural)]
pub enum Rank {
    Below,
    Same,
    Above,
}

/// Compares two identifiers byte by byte.
pub fn rank_ids(a: &[u8; 32], b: &[u8; 32]) -> (r: Rank)
    ensures
        match r {
            Rank::Below => id_value(a@) < id_value(b@),
            Rank::Same => a@ == b@,
            Rank::Above => id_value(a@) > id_value(b@),
        },
{
    let mut i: usize = 0;
    while i < 32
        invariant
            i <= 32,
            forall|j: int| 0 <= j < i ==> a@[j] == b@[j],
        decreases 32 - i,
    {
        if a[i] < b[i] {
            proof {
                lemma_order_is_lexicographic(a@, b@, i as int);
            }
            return Rank::Below;
        }
        if a[i] > b[i] {
            proof {
                lemma_order_is_lexicographic(a@, b@, i as int);
            }
            return Rank::Above;
        }
        i = i + 1;
    }
    assert(a@ =~= b@);
    Rank::Same
}

/// Whether two byte strings are equal.
pub fn same_bytes(a: &[u8], b: &[u8]) -> (r: bool)
    ensures
        r == (a@ == b@),
{
    if a.len() != b.len() {
        return false;
    }
    let mut i: usize = 0;
    while i < a.len()
        invariant
            i <= a@.len(),
            a@.len() == b@.len(),
            forall|j: int| 0 <= j < i ==> a@[j] == b@[j],
        decreases a@.len() - i,
    {
        if a[i] != b[i] {
            return false;
        }
        i = i + 1;
    }
    assert(a@ =~= b@);
    true
}

/// The state of an account as contracts speak of it.
pub struct AccountState {
    /// The account's own address.
    pub address: Seq<u8>,
    /// The registered signers, in registry order.
    pub records: Seq<SignerRecord>,
    /// The identifier of the sudo signer, once the account is initialized.
    pub sudo: Option<Seq<u8>>,
    /// The remaining lifetime of the account's instance state.
    pub instance_ttl: u32,
    /// The longest lifetime that the ledger grants.
    pub max_ttl: u32,
}

impl AccountState {
    /// The identifiers of the registered signers, in registry order.
    pub open spec fn ids(self) -> Seq<Seq<u8>> {
        Seq::new(self.records.len(), |i: int| self.records[i].id@)
    }

    /// The registry is strictly increasing in the order of identifiers.
    pub open spec fn sorted(self) -> bool {
        forall|i: int, j: int|
            0 <= i < j < self.records.len() ==> id_value(#[trigger] self.records[i].id@)
                < id_value(#[trigger] self.records[j].id@)
    }

    /// Whether `id` is registered.
    pub open spec fn has(self, id: Seq<u8>) -> bool {
        exists|i: int| 0 <= i < self.records.len() && (#[trigger] self.records[i]).id@ == id
    }

    /// The invariant of an account: the registry is sorted without
    /// duplicates, and the sudo reference is set exactly when the registry
    /// is not empty and then names a registered signer.
    pub open spec fn wf(self) -> bool {
        &&& self.address.len() == 32
        &&& self.sorted()
        &&& (self.sudo is None <==> self.records.len() == 0)
        &&& (self.sudo is Some ==> self.has(self.sudo.unwrap()))
    }
}

/// A sorted registry holds no identifier twice.
pub proof fn lemma_sorted_is_duplicate_free(state: AccountState, i: int, j: int)
    requires
        state.sorted(),
        0 <= i < state.records.len(),
        0 <= j < state.records.len(),
        state.records[i].id@ == state.records[j].id@,
    ensures
        i == j,
{
    if i < j {
        assert(id_value(state.records[i].id@) < id_value(state.records[j].id@));
    } else if j < i {
        assert(id_value(state.records[j].id@) < id_value(state.records[i].id@));
    }
}

} // verus!
