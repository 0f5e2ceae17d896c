//! The account: its signer registry with the operations that change it, and
//! the verifier that decides on an authentication attempt.

use crate::auth::{
    check_outcome, check_scope, hashable, id_option_view, request_refusal, signature_digest,
    signature_digest_spec, Context, Signature, VerifyRequest,
};
use crate::base64_url::encode;
use crate::error::Error;
use crate::host::{index_ids, index_insert, index_new, index_remove, index_search};
use crate::signer::{
    belongs_at, id_value, increasing, lemma_sorted_is_duplicate_free, rank_ids, same_bytes,
    AccountState, Rank, SignerRecord,
};
use vstd::prelude::*;

verus! {

impl AccountState {
    /// The result of adding the signer `id`: refused where the account is
    /// initialized and the caller is not authorized as the account, and
    /// where `id` is registered already.
    pub open spec fn add_outcome(self, authorized: bool, id: Seq<u8>) -> Result<(), Error> {
        if self.sudo is Some && !authorized {
            Err(Error::NotPermitted)
        } else if self.has(id) {
            Err(Error::NotPermitted)
        } else {
            Ok(())
        }
    }

    /// The state after `id` with `public_key` was added at position `pos`.
    pub open spec fn after_add(self, pos: int, id: [u8; 32], public_key: [u8; 65]) -> AccountState {
        AccountState {
            address: self.address,
            records: self.records.insert(
                pos,
                (SignerRecord { id: id, public_key: public_key, ttl: self.max_ttl }),
            ),
            sudo: if self.sudo is None {
                Some(id@)
            } else {
                self.sudo
            },
            instance_ttl: self.max_ttl,
            max_ttl: self.max_ttl,
        }
    }

    /// Why `id` may not be removed whoever asks, if so: the account has no
    /// sudo signer yet, or `id` is the sudo signer.
    pub open spec fn sudo_guard(self, id: Seq<u8>) -> Result<(), Error> {
        if self.sudo is None {
            Err(Error::NotFound)
        } else if self.sudo == Some(id) {
            Err(Error::NotPermitted)
        } else {
            Ok(())
        }
    }

    /// The result of removing the signer `id`: the sudo guard comes first,
    /// then the caller has to be authorized as the account, then `id` has to
    /// be registered.
    pub open spec fn remove_outcome(self, authorized: bool, id: Seq<u8>) -> Result<(), Error> {
        if self.sudo_guard(id) is Err {
            self.sudo_guard(id)
        } else if !authorized {
            Err(Error::NotPermitted)
        } else if !self.has(id) {
            Err(Error::NotFound)
        } else {
            Ok(())
        }
    }

    /// The state after the record at position `pos` was removed.
    pub open spec fn after_remove(self, pos: int) -> AccountState {
        AccountState {
            address: self.address,
            records: self.records.remove(pos),
            sudo: self.sudo,
            instance_ttl: self.max_ttl,
            max_ttl: self.max_ttl,
        }
    }

    /// The result of making `id` the sudo signer.
    pub open spec fn promote_outcome(self, authorized: bool, id: Seq<u8>) -> Result<(), Error> {
        if !authorized {
            Err(Error::NotPermitted)
        } else if !self.has(id) {
            Err(Error::NotFound)
        } else {
            Ok(())
        }
    }

    /// The state after `id` became the sudo signer.
    pub open spec fn after_promote(self, id: Seq<u8>) -> AccountState {
        AccountState {
            address: self.address,
            records: self.records,
            sudo: Some(id),
            instance_ttl: self.max_ttl,
            max_ttl: self.max_ttl,
        }
    }

    /// The state after the lifetime of the instance was extended.
    pub open spec fn after_extend(self) -> AccountState {
        AccountState {
            address: self.address,
            records: self.records,
            sudo: self.sudo,
            instance_ttl: self.max_ttl,
            max_ttl: self.max_ttl,
        }
    }

    /// The state after an authentication by the signer at position `pos`
    /// succeeded: the lifetimes of its key record and of the instance are
    /// extended to the longest that the ledger grants.
    pub open spec fn after_check(self, pos: int) -> AccountState {
        AccountState {
            address: self.address,
            records: self.records.update(
                pos,
                (SignerRecord {
                    id: self.records[pos].id,
                    public_key: self.records[pos].public_key,
                    ttl: self.max_ttl,
                }),
            ),
            sudo: self.sudo,
            instance_ttl: self.max_ttl,
            max_ttl: self.max_ttl,
        }
    }

    /// Where `id` belongs in the registry: every record before `pos` is
    /// below it and every record from `pos` on is above it.
    pub open spec fn gap_at(self, pos: int, id: Seq<u8>) -> bool {
        &&& 0 <= pos <= self.records.len()
        &&& forall|j: int| 0 <= j < pos ==> id_value(#[trigger] self.records[j].id@) < id_value(id)
        &&& forall|j: int|
            pos <= j < self.records.len() ==> id_value(id) < id_value(#[trigger] self.records[j].id@)
    }
}

/// Adding a signer where it belongs keeps the invariant: the registry stays
/// sorted and the sudo reference names a registered signer.
pub proof fn lemma_add_keeps_invariant(s: AccountState, pos: int, id: [u8; 32], pk: [u8; 65])
    requires
        s.wf(),
        s.gap_at(pos, id@),
    ensures
        s.after_add(pos, id, pk).wf(),
        s.after_add(pos, id, pk).has(id@),
{
    let t = s.after_add(pos, id, pk);
    let after = t.records;
    assert forall|a: int, b: int| 0 <= a < b < after.len() implies id_value(
        #[trigger] after[a].id@,
    ) < id_value(#[trigger] after[b].id@) by {
        if a != pos && b != pos {
            let a0 = if a < pos { a } else { a - 1 };
            let b0 = if b < pos { b } else { b - 1 };
            assert(after[a] == s.records[a0]);
            assert(after[b] == s.records[b0]);
            assert(id_value(s.records[a0].id@) < id_value(s.records[b0].id@));
        } else if a == pos {
            assert(after[b] == s.records[b - 1]);
            assert(id_value(id@) < id_value(s.records[b - 1].id@));
        } else {
            assert(after[a] == s.records[a]);
            assert(id_value(s.records[a].id@) < id_value(id@));
        }
    }
    assert(after[pos].id@ == id@);
    assert(t.has(id@));
    if s.sudo is Some {
        let k = choose|k: int|
            0 <= k < s.records.len() && (#[trigger] s.records[k]).id@ == s.sudo.unwrap();
        let moved = if k < pos { k } else { k + 1 };
        assert(after[moved] == s.records[k]);
        assert(t.has(t.sudo.unwrap()));
    }
}

/// Removing a signer other than the sudo signer keeps the invariant, and
/// the signer is registered no longer.
pub proof fn lemma_remove_keeps_invariant(s: AccountState, pos: int)
    requires
        s.wf(),
        0 <= pos < s.records.len(),
        s.sudo != Some(s.records[pos].id@),
    ensures
        s.after_remove(pos).wf(),
        !s.after_remove(pos).has(s.records[pos].id@),
{
    let t = s.after_remove(pos);
    let after = t.records;
    let id = s.records[pos].id@;
    assert(s.sudo is Some);
    assert forall|a: int, b: int| 0 <= a < b < after.len() implies id_value(
        #[trigger] after[a].id@,
    ) < id_value(#[trigger] after[b].id@) by {
        let a0 = if a < pos { a } else { a + 1 };
        let b0 = if b < pos { b } else { b + 1 };
        assert(after[a] == s.records[a0]);
        assert(after[b] == s.records[b0]);
        assert(id_value(s.records[a0].id@) < id_value(s.records[b0].id@));
    }
    let sudo_at = choose|k: int|
        0 <= k < s.records.len() && (#[trigger] s.records[k]).id@ == s.sudo.unwrap();
    assert(sudo_at != pos);
    let moved = if sudo_at < pos { sudo_at } else { sudo_at - 1 };
    assert(after[moved] == s.records[sudo_at]);
    assert(t.has(t.sudo.unwrap()));
    assert(!t.has(id)) by {
        if t.has(id) {
            let k = choose|k: int| 0 <= k < after.len() && (#[trigger] after[k]).id@ == id;
            let k0 = if k < pos { k } else { k + 1 };
            assert(after[k] == s.records[k0]);
            lemma_sorted_is_duplicate_free(s, k0, pos);
        }
    }
}

/// Making a registered signer the sudo signer keeps the invariant.
pub proof fn lemma_promote_keeps_invariant(s: AccountState, id: Seq<u8>)
    requires
        s.wf(),
        s.has(id),
    ensures
        s.after_promote(id).wf(),
{
    let t = s.after_promote(id);
    let k = choose|k: int| 0 <= k < s.records.len() && (#[trigger] s.records[k]).id@ == id;
    assert(t.records[k].id@ == id);
}

/// Extending lifetimes after an authentication keeps the invariant.
pub proof fn lemma_check_keeps_invariant(s: AccountState, pos: int)
    requires
        s.wf(),
        0 <= pos < s.records.len(),
    ensures
        s.after_check(pos).wf(),
{
    let t = s.after_check(pos);
    let after = t.records;
    assert forall|a: int, b: int| 0 <= a < b < after.len() implies id_value(
        #[trigger] after[a].id@,
    ) < id_value(#[trigger] after[b].id@) by {
        assert(after[a].id == s.records[a].id);
        assert(after[b].id == s.records[b].id);
        assert(id_value(s.records[a].id@) < id_value(s.records[b].id@));
    }
    let k = choose|k: int|
        0 <= k < s.records.len() && (#[trigger] s.records[k]).id@ == s.sudo.unwrap();
    assert(after[k].id == s.records[k].id);
    assert(t.has(t.sudo.unwrap()));
}

/// One change of the registry: an operation that was refused and changed
/// nothing, a signer added where it belongs, a signer other than the sudo
/// signer removed, or a registered signer made the sudo signer.
pub open spec fn registry_step(s: AccountState, t: AccountState) -> bool {
    ||| t == s
    ||| exists|pos: int, id: [u8; 32], pk: [u8; 65]|
        s.gap_at(pos, id@) && t == #[trigger] s.after_add(pos, id, pk)
    ||| exists|pos: int|
        0 <= pos < s.records.len() && s.sudo != Some(s.records[pos].id@) && t
            == #[trigger] s.after_remove(pos)
    ||| exists|id: Seq<u8>| s.has(id) && t == #[trigger] s.after_promote(id)
}

/// Through every sequence of registry changes that starts from a valid
/// account, the registry stays sorted and free of duplicates and the sudo
/// reference, once set, names a registered signer.
pub proof fn lemma_registry_stays_valid(trace: Seq<AccountState>)
    requires
        trace.len() > 0,
        trace[0].wf(),
        forall|i: int| 0 <= i < trace.len() - 1 ==> registry_step(#[trigger] trace[i], trace[i + 1]),
    ensures
        forall|i: int| 0 <= i < trace.len() ==> (#[trigger] trace[i]).wf(),
    decreases trace.len(),
{
    if trace.len() > 1 {
        let head = trace.drop_last();
        assert forall|i: int| 0 <= i < head.len() - 1 implies registry_step(
            #[trigger] head[i],
            head[i + 1],
        ) by {
            assert(registry_step(trace[i], trace[i + 1]));
        }
        lemma_registry_stays_valid(head);
        let n = trace.len() - 1;
        let s = trace[n - 1];
        let t = trace[n];
        assert(s == head[n - 1]);
        assert(s.wf());
        assert(registry_step(trace[n - 1], trace[n]));
        if t == s {
        } else if exists|pos: int, id: [u8; 32], pk: [u8; 65]|
            s.gap_at(pos, id@) && t == #[trigger] s.after_add(pos, id, pk) {
            let (pos, id, pk) = choose|pos: int, id: [u8; 32], pk: [u8; 65]|
                s.gap_at(pos, id@) && t == #[trigger] s.after_add(pos, id, pk);
            lemma_add_keeps_invariant(s, pos, id, pk);
        } else if exists|pos: int|
            0 <= pos < s.records.len() && s.sudo != Some(s.records[pos].id@) && t
                == #[trigger] s.after_remove(pos) {
            let pos = choose|pos: int|
                0 <= pos < s.records.len() && s.sudo != Some(s.records[pos].id@) && t
                    == #[trigger] s.after_remove(pos);
            lemma_remove_keeps_invariant(s, pos);
        } else {
            let id = choose|id: Seq<u8>| s.has(id) && t == #[trigger] s.after_promote(id);
            lemma_promote_keeps_invariant(s, id);
        }
        assert forall|i: int| 0 <= i < trace.len() implies (#[trigger] trace[i]).wf() by {
            if i < n {
                assert(trace[i] == head[i]);
            }
        }
    }
}

/// An account: its address, the index of its signers in order, their key
/// records in the same order, its sudo reference and the lifetimes of its
/// records.
pub struct Contract {
    pub(crate) address: [u8; 32],
    pub(crate) index: soroban_sdk::Vec<soroban_sdk::BytesN<32>>,
    pub(crate) records: Vec<SignerRecord>,
    pub(crate) sudo: Option<[u8; 32]>,
    pub(crate) instance_ttl: u32,
    pub(crate) max_ttl: u32,
}

impl View for Contract {
    type V = AccountState;

    closed spec fn view(&self) -> AccountState {
        AccountState {
            address: self.address@,
            records: self.records@,
            sudo: id_option_view(self.sudo),
            instance_ttl: self.instance_ttl,
            max_ttl: self.max_ttl,
        }
    }
}

impl Contract {
    /// The account's invariant holds, the index holds the identifiers of
    /// the key records in their order, and their number fits the index.
    pub closed spec fn wf(&self) -> bool {
        &&& self@.wf()
        &&& self.indexed()
        &&& self.records@.len() <= u32::MAX
    }

    /// The index holds the identifiers of the key records in their order.
    pub closed spec fn indexed(&self) -> bool {
        index_ids(self.index) == self@.ids()
    }

    /// A valid account has a valid state.
    pub proof fn lemma_wf_state(&self)
        requires
            self.wf(),
        ensures
            self@.wf(),
            self@.records.len() <= u32::MAX,
    {
    }

    /// An uninitialized account: no signer and no sudo reference.
    pub fn new(address: [u8; 32], max_ttl: u32) -> (c: Contract)
        ensures
            c.wf(),
            c@.wf(),
            c@.address == address@,
            c@.records.len() == 0,
            c@.sudo is None,
            c@.instance_ttl == 0,
            c@.max_ttl == max_ttl,
    {
        let c = Contract {
            address,
            index: index_new(),
            records: Vec::new(),
            sudo: None,
            instance_ttl: 0,
            max_ttl,
        };
        assert(c@.ids() =~= Seq::<Seq<u8>>::empty());
        c
    }

    /// Builds an account from stored parts, and `None` where they break the
    /// account's invariant or are more than the index can hold.
    pub fn from_parts(
        address: [u8; 32],
        records: Vec<SignerRecord>,
        sudo: Option<[u8; 32]>,
        instance_ttl: u32,
        max_ttl: u32,
    ) -> (r: Option<Contract>)
        ensures
            r is Some <==> records@.len() <= u32::MAX && (AccountState {
                address: address@,
                records: records@,
                sudo: id_option_view(sudo),
                instance_ttl: instance_ttl,
                max_ttl: max_ttl,
            }).wf(),
            r is Some ==> r.unwrap().wf() && r.unwrap()@ == (AccountState {
                address: address@,
                records: records@,
                sudo: id_option_view(sudo),
                instance_ttl: instance_ttl,
                max_ttl: max_ttl,
            }),
    {
        if records.len() > 0xffff_ffff {
            return None;
        }
        let mut c = Contract { address, index: index_new(), records, sudo, instance_ttl, max_ttl };
        let ghost st = c@;
        let n: usize = c.records.len();
        let mut i: usize = 0;
        while i < n
            invariant
                n == c.records@.len(),
                n <= u32::MAX,
                i <= n,
                c@ == st,
                st == (AccountState {
                    address: address@,
                    records: records@,
                    sudo: id_option_view(sudo),
                    instance_ttl: instance_ttl,
                    max_ttl: max_ttl,
                }),
                index_ids(c.index) == st.ids().take(i as int),
                forall|a: int, b: int|
                    0 <= a < b < i ==> id_value(#[trigger] c.records@[a].id@) < id_value(
                        #[trigger] c.records@[b].id@,
                    ),
            decreases n - i,
        {
            if i > 0 {
                match rank_ids(&c.records[i - 1].id, &c.records[i].id) {
                    Rank::Below => {
                        assert forall|a: int, b: int| 0 <= a < b < i + 1 implies id_value(
                            #[trigger] c.records@[a].id@,
                        ) < id_value(#[trigger] c.records@[b].id@) by {
                            if b == i && a < i - 1 {
                                assert(id_value(c.records@[a].id@) < id_value(
                                    c.records@[i - 1].id@,
                                ));
                            }
                        }
                    },
                    _ => {
                        assert(!st.sorted()) by {
                            if st.sorted() {
                                assert(id_value(st.records[i - 1].id@) < id_value(
                                    st.records[i as int].id@,
                                ));
                            }
                        }
                        return None;
                    },
                }
            }
            let id = c.records[i].id;
            index_insert(&mut c.index, i as u32, &id);
            assert(st.ids().take(i as int).insert(i as int, id@) =~= st.ids().take(i + 1));
            i = i + 1;
        }
        assert(st.ids().take(n as int) =~= st.ids());
        assert(c@.sorted());
        match c.sudo {
            None => {
                if n != 0 {
                    return None;
                }
            },
            Some(s) => {
                match c.find(&s) {
                    Ok(_) => {},
                    Err(_) => {
                        return None;
                    },
                }
            },
        }
        Some(c)
    }

    /// The account's own address.
    pub fn address(&self) -> (a: [u8; 32])
        ensures
            a@ == self@.address,
    {
        self.address
    }

    /// The identifier of the sudo signer, once the account is initialized.
    pub fn sudo_signer(&self) -> (s: Option<[u8; 32]>)
        ensures
            id_option_view(s) == self@.sudo,
    {
        self.sudo
    }

    /// The remaining lifetime of the account's instance state.
    pub fn instance_ttl(&self) -> (t: u32)
        ensures
            t == self@.instance_ttl,
    {
        self.instance_ttl
    }

    /// The longest lifetime that the ledger grants.
    pub fn max_ttl(&self) -> (t: u32)
        ensures
            t == self@.max_ttl,
    {
        self.max_ttl
    }

    /// Searches the index for `id`: `Ok` with its position, or `Err` with
    /// the position at which it belongs.
    pub fn find(&self, id: &[u8; 32]) -> (r: Result<usize, usize>)
        requires
            self@.sorted(),
            self.indexed(),
        ensures
            match r {
                Ok(i) => i < self@.records.len() && self@.records[i as int].id@ == id@,
                Err(i) => !self@.has(id@) && self@.gap_at(i as int, id@),
            },
            r is Ok <==> self@.has(id@),
    {
        let ghost ids = self@.ids();
        assert(increasing(ids)) by {
            assert forall|i: int, j: int| 0 <= i < j < ids.len() implies id_value(
                #[trigger] ids[i],
            ) < id_value(#[trigger] ids[j]) by {
                assert(id_value(self@.records[i].id@) < id_value(self@.records[j].id@));
            }
        }
        match index_search(&self.index, id) {
            Ok(i) => {
                assert(ids[i as int] == self@.records[i as int].id@);
                Ok(i as usize)
            },
            Err(i) => {
                assert(belongs_at(ids, i as int, id@));
                assert(self@.gap_at(i as int, id@)) by {
                    assert forall|j: int| 0 <= j < i implies id_value(
                        #[trigger] self@.records[j].id@,
                    ) < id_value(id@) by {
                        assert(ids[j] == self@.records[j].id@);
                    }
                    assert forall|j: int| i <= j < self@.records.len() implies id_value(id@)
                        < id_value(#[trigger] self@.records[j].id@) by {
                        assert(ids[j] == self@.records[j].id@);
                    }
                }
                assert(!self@.has(id@)) by {
                    if self@.has(id@) {
                        let k = choose|k: int|
                            0 <= k < self@.records.len() && (#[trigger] self@.records[k]).id@
                                == id@;
                        if k < i {
                            assert(id_value(self@.records[k].id@) < id_value(id@));
                        } else {
                            assert(id_value(id@) < id_value(self@.records[k].id@));
                        }
                    }
                }
                Err(i as usize)
            },
        }
    }

    /// The public key registered for `id`.
    pub fn public_key(&self, id: &[u8; 32]) -> (r: Option<[u8; 65]>)
        requires
            self.wf(),
        ensures
            r is Some <==> self@.has(id@),
            r is Some ==> exists|i: int|
                0 <= i < self@.records.len() && (#[trigger] self@.records[i]).id@ == id@
                    && self@.records[i].public_key == r.unwrap(),
    {
        match self.find(id) {
            Ok(i) => {
                assert(self@.records[i as int].id@ == id@);
                Some(self.records[i].public_key)
            },
            Err(_) => None,
        }
    }

    /// The remaining lifetime of the key record of `id`.
    pub fn key_ttl(&self, id: &[u8; 32]) -> (r: Option<u32>)
        requires
            self.wf(),
        ensures
            r is Some <==> self@.has(id@),
            r is Some ==> exists|i: int|
                0 <= i < self@.records.len() && (#[trigger] self@.records[i]).id@ == id@
                    && self@.records[i].ttl == r.unwrap(),
    {
        match self.find(id) {
            Ok(i) => {
                assert(self@.records[i as int].id@ == id@);
                Some(self.records[i].ttl)
            },
            Err(_) => None,
        }
    }

    /// Extends the lifetime of the account's instance state to the longest
    /// that the ledger grants.
    pub fn extend_ttl(&mut self)
        ensures
            final(self)@ == old(self)@.after_extend(),
            old(self).wf() ==> final(self).wf(),
    {
        self.instance_ttl = self.max_ttl;
    }

    /// Makes the registered signer `id` the sudo signer.
    pub fn resudo(&mut self, authorized: bool, id: [u8; 32]) -> (r: Result<(), Error>)
        requires
            old(self).wf(),
        ensures
            final(self).wf(),
            final(self)@.wf(),
            r == old(self)@.promote_outcome(authorized, id@),
            r is Err ==> final(self)@ == old(self)@,
            r is Ok ==> final(self)@ == old(self)@.after_promote(id@),
            registry_step(old(self)@, final(self)@),
    {
        if !authorized {
            return Err(Error::NotPermitted);
        }
        match self.find(&id) {
            Ok(_) => {
                proof {
                    lemma_promote_keeps_invariant(self@, id@);
                }
                self.sudo = Some(id);
            },
            Err(_) => {
                return Err(Error::NotFound);
            },
        }
        self.extend_ttl();
        Ok(())
    }

    /// Whether `id` may be removed at all: refused before any authorization
    /// is asked for where the account has no sudo signer or `id` is the sudo
    /// signer.
    pub fn sudo_guard(&self, id: &[u8; 32]) -> (r: Result<(), Error>)
        ensures
            r == self@.sudo_guard(id@),
            r is Err ==> self@.remove_outcome(true, id@) == r && self@.remove_outcome(false, id@)
                == r,
    {
        match self.sudo {
            None => Err(Error::NotFound),
            Some(s) => {
                if same_bytes(s.as_slice(), id.as_slice()) {
                    Err(Error::NotPermitted)
                } else {
                    Ok(())
                }
            },
        }
    }

    /// Removes the signer `id`, which must not be the sudo signer.
    pub fn rm_sig(&mut self, authorized: bool, id: [u8; 32]) -> (r: Result<(), Error>)
        requires
            old(self).wf(),
        ensures
            final(self).wf(),
            final(self)@.wf(),
            r == old(self)@.remove_outcome(authorized, id@),
            r is Err ==> final(self)@ == old(self)@,
            r is Ok ==> exists|pos: int|
                0 <= pos < old(self)@.records.len() && (#[trigger] old(self)@.records[pos]).id@
                    == id@ && final(self)@ == old(self)@.after_remove(pos),
            r is Ok ==> !final(self)@.has(id@),
            registry_step(old(self)@, final(self)@),
    {
        match self.sudo_guard(&id) {
            Err(e) => {
                return Err(e);
            },
            Ok(_) => {},
        }
        if !authorized {
            return Err(Error::NotPermitted);
        }
        match self.find(&id) {
            Ok(i) => {
                let ghost before = self@;
                proof {
                    lemma_remove_keeps_invariant(before, i as int);
                }
                self.records.remove(i);
                index_remove(&mut self.index, i as u32);
                assert(self@.ids() =~= before.ids().remove(i as int));
            },
            Err(_) => {
                return Err(Error::NotFound);
            },
        }
        self.extend_ttl();
        Ok(())
    }

    /// Registers the signer `id` with its public key. The first signer of an
    /// account becomes its sudo signer.
    pub fn add_sig(&mut self, authorized: bool, id: [u8; 32], pk: [u8; 65]) -> (r: Result<
        (),
        Error,
    >)
        requires
            old(self).wf(),
            old(self)@.records.len() < u32::MAX,
        ensures
            final(self).wf(),
            final(self)@.wf(),
            r == old(self)@.add_outcome(authorized, id@),
            r is Err ==> final(self)@ == old(self)@,
            r is Ok ==> exists|pos: int|
                old(self)@.gap_at(pos, id@) && final(self)@ == old(self)@.after_add(pos, id, pk),
            r is Ok ==> final(self)@.has(id@),
            registry_step(old(self)@, final(self)@),
    {
        if self.sudo.is_some() && !authorized {
            return Err(Error::NotPermitted);
        }
        match self.find(&id) {
            Ok(_) => {
                return Err(Error::NotPermitted);
            },
            Err(i) => {
                let ghost before = self@;
                proof {
                    lemma_add_keeps_invariant(before, i as int, id, pk);
                }
                if self.sudo.is_none() {
                    self.sudo = Some(id);
                }
                self.records.insert(i, SignerRecord { id: id, public_key: pk, ttl: self.max_ttl });
                index_insert(&mut self.index, i as u32, &id);
                assert(self@.ids() =~= before.ids().insert(i as int, id@));
            },
        }
        self.extend_ttl();
        Ok(())
    }

    /// The identifiers of the registered signers, in registry order.
    pub fn list_sigs(&self) -> (out: Vec<[u8; 32]>)
        ensures
            out@.len() == self@.records.len(),
            forall|i: int| 0 <= i < out@.len() ==> (#[trigger] out@[i])@ == self@.ids()[i],
    {
        let mut out: Vec<[u8; 32]> = Vec::new();
        let mut i: usize = 0;
        while i < self.records.len()
            invariant
                i <= self.records@.len(),
                out@.len() == i,
                forall|j: int| 0 <= j < i ==> (#[trigger] out@[j]) == self.records@[j].id,
            decreases self.records@.len() - i,
        {
            out.push(self.records[i].id);
            i = i + 1;
        }
        out
    }

    /// What the host's signature primitive has to verify for an assertion:
    /// the requested operations are judged first, then the signer's key is
    /// looked up.
    pub fn verification_request(&self, signature: &Signature, auth_contexts: &Vec<Context>) -> (r:
        Result<VerifyRequest, Error>)
        requires
            self.wf(),
            hashable(*signature),
        ensures
            match r {
                Ok(req) => {
                    &&& request_refusal(self@, *signature, auth_contexts@) is None
                    &&& exists|i: int|
                        0 <= i < self@.records.len() && (#[trigger] self@.records[i]).id@
                            == signature.id@ && self@.records[i].public_key == req.public_key
                    &&& req.digest@ == signature_digest_spec(*signature)
                    &&& req.signature == signature.signature
                },
                Err(e) => request_refusal(self@, *signature, auth_contexts@) == Some(e),
            },
    {
        match check_scope(&self.address, &self.sudo, &signature.id, auth_contexts) {
            Some(e) => {
                return Err(e);
            },
            None => {},
        }
        match self.find(&signature.id) {
            Ok(i) => {
                assert(self@.records[i as int].id@ == signature.id@);
                Ok(
                    VerifyRequest {
                        public_key: self.records[i].public_key,
                        digest: signature_digest(signature),
                        signature: signature.signature,
                    },
                )
            },
            Err(_) => Err(Error::NotFound),
        }
    }

    /// Decides on an authentication attempt, given whether the host verified
    /// the signature and the challenge that the client data carries (`None`
    /// where the client data is not JSON or has no challenge). On success
    /// the lifetimes of the signer's key record and of the instance are
    /// extended; on failure nothing changes.
    #[allow(non_snake_case)]
    pub fn __check_auth(
        &mut self,
        signature_payload: &[u8; 32],
        signature: &Signature,
        auth_contexts: &Vec<Context>,
        signature_valid: bool,
        challenge: Option<&[u8]>,
    ) -> (r: Result<(), Error>)
        requires
            old(self).wf(),
        ensures
            final(self).wf(),
            final(self)@.wf(),
            r == check_outcome(
                old(self)@,
                signature_payload@,
                *signature,
                auth_contexts@,
                signature_valid,
                match challenge {
                    Some(c) => Some(c@),
                    None => None,
                },
            ),
            r is Err ==> final(self)@ == old(self)@,
            r is Ok ==> exists|pos: int|
                0 <= pos < old(self)@.records.len() && (#[trigger] old(self)@.records[pos]).id@
                    == signature.id@ && final(self)@ == old(self)@.after_check(pos),
    {
        match check_scope(&self.address, &self.sudo, &signature.id, auth_contexts) {
            Some(e) => {
                return Err(e);
            },
            None => {},
        }
        let pos: usize = match self.find(&signature.id) {
            Ok(i) => i,
            Err(_) => {
                return Err(Error::NotFound);
            },
        };
        if !signature_valid {
            return Err(Error::Secp256r1VerifyFailed);
        }
        let presented: &[u8] = match challenge {
            Some(c) => c,
            None => {
                return Err(Error::JsonParseError);
            },
        };
        let expected = encode(signature_payload.as_slice());
        if !same_bytes(presented, expected.as_slice()) {
            return Err(Error::ClientDataJsonChallengeIncorrect);
        }
        let ghost before = self@;
        proof {
            lemma_check_keeps_invariant(before, pos as int);
        }
        let old_record = self.records[pos];
        self.records[pos] = SignerRecord {
            id: old_record.id,
            public_key: old_record.public_key,
            ttl: self.max_ttl,
        };
        assert(self@.ids() =~= before.ids());
        self.extend_ttl();
        Ok(())
    }
}

} // verus!
