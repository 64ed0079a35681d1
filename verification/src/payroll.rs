//! The payroll registry: an organization commits the Merkle root of a batch
//! of disbursements, one leaf per payment, and anyone holding a leaf and
//! its Merkle proof can later show that the leaf belongs to a committed
//! batch. Leaves and interior nodes are hashed with distinct prefixes
//! (`0x00` and `0x01`), so that no leaf can pass for an interior node.

use vstd::prelude::*;
use crate::addr::{Addr, opt_view};
use crate::keymap::{KeyMap, MapKey};
use crate::host::{sha256, i128_xdr, sha256_digest, i128_to_xdr, lemma_i128_xdr_injective, lemma_i128_xdr_len};
use crate::effects::Call;
use vstd::arithmetic::power2::{pow2, lemma_pow2_unfold, lemma_pow2_pos};
use vstd::arithmetic::div_mod::{
    lemma_mod_mod, lemma_mod_breakdown, lemma_fundamental_div_mod_converse, lemma_div_denominator,
};

verus! {

/// How long a batch stays claimable when its commitment names no
/// expiration: ninety days, in seconds.
pub const DEFAULT_EXPIRATION_WINDOW: u64 = 90 * 86_400;

/// Why a payroll call is refused.
#[derive(Clone, Copy, Debug, PartialEq, Eq, PartialOrd, Ord, Structural)]
pub enum Error {
    AlreadyCommitted,
    NotFound,
    EmptyBatch,
    BatchNotExpired,
    AlreadyReclaimed,
    Unauthorized,
    BatchExpired,
}

impl Error {
    /// The contract error code of this error.
    pub fn code(&self) -> (c: u32)
        ensures
            c == match *self {
                Error::AlreadyCommitted => 1u32,
                Error::NotFound => 2u32,
                Error::EmptyBatch => 3u32,
                Error::BatchNotExpired => 4u32,
                Error::AlreadyReclaimed => 5u32,
                Error::Unauthorized => 6u32,
                Error::BatchExpired => 7u32,
            },
    {
        match self {
            Error::AlreadyCommitted => 1,
            Error::NotFound => 2,
            Error::EmptyBatch => 3,
            Error::BatchNotExpired => 4,
            Error::AlreadyReclaimed => 5,
            Error::Unauthorized => 6,
            Error::BatchExpired => 7,
        }
    }
}

/// A committed payroll batch.
#[derive(Clone, Debug, PartialEq, Eq)]
pub struct PayrollCommitment {
    pub org: Addr,
    pub merkle_root: [u8; 32],
    pub employee_count: u32,
    pub expiration_timestamp: u64,
    pub reclaimed: bool,
}

/// A committed payroll batch as plain values.
pub struct CommitmentView {
    pub org: Seq<u8>,
    pub merkle_root: Seq<u8>,
    pub employee_count: u32,
    pub expiration_timestamp: u64,
    pub reclaimed: bool,
}

impl View for PayrollCommitment {
    type V = CommitmentView;

    open spec fn view(&self) -> CommitmentView {
        CommitmentView {
            org: self.org@,
            merkle_root: self.merkle_root@,
            employee_count: self.employee_count,
            expiration_timestamp: self.expiration_timestamp,
            reclaimed: self.reclaimed,
        }
    }
}

impl PayrollCommitment {
    /// A copy of this commitment.
    pub fn duplicate(&self) -> (c: PayrollCommitment)
        ensures
            c@ == self@,
    {
        PayrollCommitment {
            org: self.org.duplicate(),
            merkle_root: self.merkle_root,
            employee_count: self.employee_count,
            expiration_timestamp: self.expiration_timestamp,
            reclaimed: self.reclaimed,
        }
    }
}

/// Published when a batch is committed.
#[derive(Clone, Debug, PartialEq, Eq)]
pub struct PayrollCommittedEvent {
    pub org: Addr,
    pub payroll_id: u64,
    pub employee_count: u32,
    pub expiration_timestamp: u64,
}

/// Published when an organization reclaims an expired batch.
#[derive(Clone, Debug, PartialEq, Eq)]
pub struct FundsReclaimedEvent {
    pub org: Addr,
    pub payroll_id: u64,
}

/// The preimage of an interior node whose child on the path sits at
/// position `index` of its level: `0x01 || left || right`, with the path's
/// node on the left at even positions and on the right at odd ones.
pub open spec fn node_preimage(current: Seq<u8>, sibling: Seq<u8>, index: nat) -> Seq<u8> {
    if index % 2 == 0 {
        seq![1u8] + current + sibling
    } else {
        seq![1u8] + sibling + current
    }
}

/// The hash of that interior node.
pub open spec fn node_hash(current: Seq<u8>, sibling: Seq<u8>, index: nat) -> Seq<u8> {
    sha256(node_preimage(current, sibling, index))
}

/// The root reached from `leaf` at position `index` by hashing in the
/// siblings of `proof`, from the leaf's level upwards.
pub open spec fn merkle_root(leaf: Seq<u8>, proof: Seq<Seq<u8>>, index: nat) -> Seq<u8>
    decreases proof.len(),
{
    if proof.len() == 0 {
        leaf
    } else {
        merkle_root(node_hash(leaf, proof[0], index), proof.drop_first(), index / 2)
    }
}

/// The bytes of each hash of a proof.
pub open spec fn hashes_view(proof: Seq<[u8; 32]>) -> Seq<Seq<u8>> {
    proof.map_values(|h: [u8; 32]| h@)
}

/// The preimage of a disbursement leaf, given the XDR encoding of its
/// amount: `0x00 || xdr(recipient) || xdr(amount) || xdr(token) || salt`.
pub open spec fn leaf_preimage(recipient: Seq<u8>, amount_xdr: Seq<u8>, token: Seq<u8>, salt: Seq<u8>) -> Seq<u8> {
    seq![0u8] + recipient + amount_xdr + token + salt
}

/// The expiration that a commitment made at time `now` records.
pub open spec fn expiration_for(now: u64, expiration_timestamp: Option<u64>) -> u64 {
    match expiration_timestamp {
        Some(e) => if e > 0 { e } else { (now + DEFAULT_EXPIRATION_WINDOW) as u64 },
        None => (now + DEFAULT_EXPIRATION_WINDOW) as u64,
    }
}

/// Whether a commitment at `now` needs the default window.
pub open spec fn uses_default_window(expiration_timestamp: Option<u64>) -> bool {
    match expiration_timestamp {
        Some(e) => e == 0,
        None => true,
    }
}

/// The registry after `commit_payroll`.
pub open spec fn after_commit(
    m: Map<u64, CommitmentView>,
    org: Seq<u8>,
    payroll_id: u64,
    merkle_root: Seq<u8>,
    employee_count: u32,
    expiration_timestamp: Option<u64>,
    now: u64,
) -> Map<u64, CommitmentView> {
    if employee_count == 0 || m.contains_key(payroll_id) {
        m
    } else {
        m.insert(
            payroll_id,
            CommitmentView {
                org,
                merkle_root,
                employee_count,
                expiration_timestamp: expiration_for(now, expiration_timestamp),
                reclaimed: false,
            },
        )
    }
}

/// Whether `org` may reclaim batch `payroll_id` at `now`.
pub open spec fn reclaim_ok(m: Map<u64, CommitmentView>, org: Seq<u8>, payroll_id: u64, now: u64) -> bool {
    &&& m.contains_key(payroll_id)
    &&& m[payroll_id].org == org
    &&& !m[payroll_id].reclaimed
    &&& now >= m[payroll_id].expiration_timestamp
}

/// The registry after `reclaim_unclaimed_funds`.
pub open spec fn after_reclaim(m: Map<u64, CommitmentView>, org: Seq<u8>, payroll_id: u64, now: u64) -> Map<u64, CommitmentView> {
    if reclaim_ok(m, org, payroll_id, now) {
        m.insert(payroll_id, CommitmentView { reclaimed: true, ..m[payroll_id] })
    } else {
        m
    }
}

/// Whether `root` is the root of batch `payroll_id` and the batch can still
/// be claimed at `now`: it exists, is not reclaimed and has not expired.
pub open spec fn claimable_root(m: Map<u64, CommitmentView>, now: u64, payroll_id: u64, root: Seq<u8>) -> bool {
    &&& m.contains_key(payroll_id)
    &&& !m[payroll_id].reclaimed
    &&& now <= m[payroll_id].expiration_timestamp
    &&& root == m[payroll_id].merkle_root
}

/// Whether `leaf` with `proof` at `index` is a disbursement of batch
/// `payroll_id` that can still be claimed at `now`.
pub open spec fn verifies(
    m: Map<u64, CommitmentView>,
    now: u64,
    payroll_id: u64,
    leaf: Seq<u8>,
    proof: Seq<Seq<u8>>,
    index: u32,
) -> bool {
    claimable_root(m, now, payroll_id, merkle_root(leaf, proof, index as nat))
}

/// Appends the bytes of `src` to `buf`.
fn append_bytes(buf: &mut Vec<u8>, src: &Vec<u8>)
    ensures
        final(buf)@ == old(buf)@ + src@,
{
    let n = src.len();
    for i in 0..n
        invariant
            n == src@.len(),
            buf@ == old(buf)@ + src@.subrange(0, i as int),
    {
        buf.push(src[i]);
        assert(src@.subrange(0, i + 1) =~= src@.subrange(0, i as int).push(src@[i as int]));
    }
    assert(src@.subrange(0, n as int) =~= src@);
}

/// Appends the bytes of hash `h` to `buf`.
fn append_hash(buf: &mut Vec<u8>, h: &[u8; 32])
    ensures
        final(buf)@ == old(buf)@ + h@,
{
    let mut i: usize = 0;
    while i < 32
        invariant
            i <= 32,
            buf@ == old(buf)@ + h@.subrange(0, i as int),
        decreases 32 - i,
    {
        buf.push(h[i]);
        assert(h@.subrange(0, i + 1) =~= h@.subrange(0, i as int).push(h@[i as int]));
        i = i + 1;
    }
    assert(h@.subrange(0, 32) =~= h@);
}

/// The preimage of the interior node above `current` and `sibling`, the
/// path's node sitting at position `index` of its level.
pub fn node_preimage_bytes(current: &[u8; 32], sibling: &[u8; 32], index: u32) -> (buf: Vec<u8>)
    ensures
        buf@ == node_preimage(current@, sibling@, index as nat),
{
    let mut buf: Vec<u8> = Vec::new();
    buf.push(1u8);
    if index % 2 == 0 {
        append_hash(&mut buf, current);
        append_hash(&mut buf, sibling);
    } else {
        append_hash(&mut buf, sibling);
        append_hash(&mut buf, current);
    }
    assert(buf@ =~= node_preimage(current@, sibling@, index as nat));
    buf
}

/// The preimage of a disbursement leaf, given the XDR encoding of its
/// amount.
pub fn leaf_preimage_bytes(recipient: &Addr, amount_xdr: &Vec<u8>, token: &Addr, salt: &[u8; 32]) -> (buf: Vec<u8>)
    ensures
        buf@ == leaf_preimage(recipient@, amount_xdr@, token@, salt@),
{
    let mut buf: Vec<u8> = Vec::new();
    buf.push(0u8);
    append_bytes(&mut buf, &recipient.xdr);
    append_bytes(&mut buf, amount_xdr);
    append_bytes(&mut buf, &token.xdr);
    append_hash(&mut buf, salt);
    assert(buf@ =~= leaf_preimage(recipient@, amount_xdr@, token@, salt@));
    buf
}

/// The payroll contract's state: the committed batches by id.
pub struct PayrollContract {
    commitments: KeyMap<u64, PayrollCommitment>,
}

impl View for PayrollContract {
    type V = Map<u64, CommitmentView>;

    closed spec fn view(&self) -> Map<u64, CommitmentView> {
        self.commitments@
    }
}

impl PayrollContract {
    /// The contract's invariant: its map is well formed.
    pub closed spec fn wf(&self) -> bool {
        self.commitments.wf()
    }

    /// A freshly deployed registry with no batches.
    pub fn new() -> (p: PayrollContract)
        ensures
            p.wf(),
            p@ == Map::<u64, CommitmentView>::empty(),
    {
        PayrollContract { commitments: KeyMap::new() }
    }

    /// `org` commits the Merkle root of batch `payroll_id` of
    /// `employee_count` payments, claimable until `expiration_timestamp`,
    /// or for `DEFAULT_EXPIRATION_WINDOW` seconds from `now` (the ledger's
    /// time) when that is absent or zero. Refused with `EmptyBatch` when
    /// the batch is empty; otherwise needs `org`'s authorization, and is
    /// refused with `AlreadyCommitted` when the id is taken.
    pub fn commit_payroll(
        &mut self,
        org: Addr,
        payroll_id: u64,
        merkle_root: [u8; 32],
        employee_count: u32,
        expiration_timestamp: Option<u64>,
        now: u64,
    ) -> (r: Call<PayrollCommittedEvent, Error>)
        requires
            old(self).wf(),
            employee_count != 0 && !old(self)@.contains_key(payroll_id) && uses_default_window(expiration_timestamp)
                ==> now + DEFAULT_EXPIRATION_WINDOW <= u64::MAX,
        ensures
            final(self).wf(),
            final(self)@ == after_commit(old(self)@, org@, payroll_id, merkle_root@, employee_count, expiration_timestamp, now),
            employee_count == 0 ==> r.signer is None && r.result == Err::<PayrollCommittedEvent, Error>(Error::EmptyBatch),
            employee_count != 0 ==> opt_view(r.signer) == Some(org@),
            employee_count != 0 && old(self)@.contains_key(payroll_id)
                ==> r.result == Err::<PayrollCommittedEvent, Error>(Error::AlreadyCommitted),
            employee_count != 0 && !old(self)@.contains_key(payroll_id) ==> {
                &&& r.result matches Ok(e)
                &&& e.org@ == org@ && e.payroll_id == payroll_id && e.employee_count == employee_count
                &&& e.expiration_timestamp == expiration_for(now, expiration_timestamp)
            },
    {
        if employee_count == 0 {
            return Call { signer: None, result: Err(Error::EmptyBatch) };
        }
        let signer = Some(org.duplicate());
        if self.commitments.contains_key(&payroll_id) {
            return Call { signer, result: Err(Error::AlreadyCommitted) };
        }
        let expiration = match expiration_timestamp {
            Some(exp) => if exp > 0 { exp } else { now + DEFAULT_EXPIRATION_WINDOW },
            None => now + DEFAULT_EXPIRATION_WINDOW,
        };
        let event = PayrollCommittedEvent {
            org: org.duplicate(),
            payroll_id,
            employee_count,
            expiration_timestamp: expiration,
        };
        let commitment = PayrollCommitment {
            org,
            merkle_root,
            employee_count,
            expiration_timestamp: expiration,
            reclaimed: false,
        };
        self.commitments.insert(payroll_id, commitment);
        Call { signer, result: Ok(event) }
    }

    /// Loads a stored commitment of batch `payroll_id`.
    pub fn restore_commitment(&mut self, payroll_id: u64, commitment: PayrollCommitment)
        requires
            old(self).wf(),
        ensures
            final(self).wf(),
            final(self)@ == old(self)@.insert(payroll_id, commitment@),
    {
        self.commitments.insert(payroll_id, commitment);
    }

    /// The commitment of batch `payroll_id`; `NotFound` if there is none.
    pub fn get_commitment(&self, payroll_id: u64) -> (r: Result<PayrollCommitment, Error>)
        requires
            self.wf(),
        ensures
            match r {
                Ok(c) => self@.contains_key(payroll_id) && c@ == self@[payroll_id],
                Err(e) => !self@.contains_key(payroll_id) && e == Error::NotFound,
            },
    {
        match self.commitments.get(&payroll_id) {
            Some(c) => Ok(c.duplicate()),
            None => Err(Error::NotFound),
        }
    }

    /// `org` marks its batch `payroll_id` reclaimed once it has expired;
    /// from then on no disbursement of the batch verifies. Needs `org`'s
    /// authorization, and is refused with `NotFound` for an unknown id,
    /// `Unauthorized` when `org` did not commit the batch,
    /// `AlreadyReclaimed` the second time and `BatchNotExpired` before its
    /// expiration timestamp.
    pub fn reclaim_unclaimed_funds(&mut self, org: &Addr, payroll_id: u64, now: u64) -> (r: Call<FundsReclaimedEvent, Error>)
        requires
            old(self).wf(),
        ensures
            final(self).wf(),
            final(self)@ == after_reclaim(old(self)@, org@, payroll_id, now),
            opt_view(r.signer) == Some(org@),
            !old(self)@.contains_key(payroll_id) ==> r.result == Err::<FundsReclaimedEvent, Error>(Error::NotFound),
            old(self)@.contains_key(payroll_id) && old(self)@[payroll_id].org != org@
                ==> r.result == Err::<FundsReclaimedEvent, Error>(Error::Unauthorized),
            old(self)@.contains_key(payroll_id) && old(self)@[payroll_id].org == org@ && old(self)@[payroll_id].reclaimed
                ==> r.result == Err::<FundsReclaimedEvent, Error>(Error::AlreadyReclaimed),
            old(self)@.contains_key(payroll_id) && old(self)@[payroll_id].org == org@ && !old(self)@[payroll_id].reclaimed
                && now < old(self)@[payroll_id].expiration_timestamp
                ==> r.result == Err::<FundsReclaimedEvent, Error>(Error::BatchNotExpired),
            reclaim_ok(old(self)@, org@, payroll_id, now) ==> {
                &&& r.result matches Ok(e)
                &&& e.org@ == org@ && e.payroll_id == payroll_id
            },
    {
        let signer = Some(org.duplicate());
        let mut commitment = match self.commitments.get(&payroll_id) {
            Some(c) => c.duplicate(),
            None => return Call { signer, result: Err(Error::NotFound) },
        };
        if !commitment.org.same(org) {
            return Call { signer, result: Err(Error::Unauthorized) };
        }
        if commitment.reclaimed {
            return Call { signer, result: Err(Error::AlreadyReclaimed) };
        }
        if now < commitment.expiration_timestamp {
            return Call { signer, result: Err(Error::BatchNotExpired) };
        }
        commitment.reclaimed = true;
        self.commitments.insert(payroll_id, commitment);
        proof {
            assert(self@ =~= after_reclaim(old(self)@, org@, payroll_id, now));
        }
        Call { signer, result: Ok(FundsReclaimedEvent { org: org.duplicate(), payroll_id }) }
    }

    /// Whether `leaf`, with Merkle `proof` at position `index`, belongs to
    /// batch `payroll_id` and can still be claimed at `now` (the ledger's
    /// time): the batch exists, is not reclaimed, has not expired, and the
    /// root computed from the leaf is its committed root.
    pub fn verify_disbursement(
        &self,
        env: &soroban_sdk::Env,
        now: u64,
        payroll_id: u64,
        leaf: [u8; 32],
        proof: &Vec<[u8; 32]>,
        index: u32,
    ) -> (ok: bool)
        requires
            self.wf(),
        ensures
            ok == verifies(self@, now, payroll_id, leaf@, hashes_view(proof@), index),
    {
        if !self.is_claimable(now, payroll_id) {
            return false;
        }
        let computed = Self::compute_root(env, leaf, proof, index);
        self.root_is_claimable(now, payroll_id, &computed)
    }

    fn is_claimable(&self, now: u64, payroll_id: u64) -> (ok: bool)
        requires
            self.wf(),
        ensures
            ok == (self@.contains_key(payroll_id) && !self@[payroll_id].reclaimed
                && now <= self@[payroll_id].expiration_timestamp),
    {
        match self.commitments.get(&payroll_id) {
            Some(c) => !c.reclaimed && now <= c.expiration_timestamp,
            None => false,
        }
    }

    /// Whether `root` is the committed root of batch `payroll_id` and the
    /// batch can still be claimed at `now` (the ledger's time).
    pub fn root_is_claimable(&self, now: u64, payroll_id: u64, root: &[u8; 32]) -> (ok: bool)
        requires
            self.wf(),
        ensures
            ok == claimable_root(self@, now, payroll_id, root@),
    {
        match self.commitments.get(&payroll_id) {
            Some(c) => !c.reclaimed && now <= c.expiration_timestamp && root.same_key(&c.merkle_root),
            None => false,
        }
    }

    /// The Merkle root reached from `leaf` at position `index` through the
    /// siblings in `proof`, hashing interior nodes with the `0x01` prefix.
    pub fn compute_root(env: &soroban_sdk::Env, leaf: [u8; 32], proof: &Vec<[u8; 32]>, index: u32) -> (root: [u8; 32])
        ensures
            root@ == merkle_root(leaf@, hashes_view(proof@), index as nat),
    {
        let ghost p = hashes_view(proof@);
        let mut computed = leaf;
        let mut idx = index;
        let n = proof.len();
        assert(p.skip(0) =~= p);
        for i in 0..n
            invariant
                n == proof@.len(),
                p == hashes_view(proof@),
                merkle_root(leaf@, p, index as nat) == merkle_root(computed@, p.skip(i as int), idx as nat),
        {
            let sibling = proof[i];
            let buf = node_preimage_bytes(&computed, &sibling, idx);
            let ghost before = computed@;
            computed = sha256_digest(env, buf.as_slice());
            proof {
                assert(p.skip(i as int)[0] == sibling@);
                assert(p.skip(i as int).drop_first() =~= p.skip(i + 1));
                assert(computed@ == node_hash(before, sibling@, idx as nat));
            }
            idx = idx / 2;
        }
        proof {
            assert(p.skip(n as int).len() == 0);
        }
        computed
    }

    /// The leaf of a disbursement: the SHA-256 of `0x00`, the XDR encodings
    /// of `recipient`, `amount` and `token`, and the `salt`.
    pub fn hash_disbursement_leaf(
        env: &soroban_sdk::Env,
        recipient: &Addr,
        amount: i128,
        token: &Addr,
        salt: &[u8; 32],
    ) -> (leaf: [u8; 32])
        ensures
            leaf@ == sha256(leaf_preimage(recipient@, i128_xdr(amount), token@, salt@)),
    {
        let amount_xdr = i128_to_xdr(env, amount);
        let buf = leaf_preimage_bytes(recipient, &amount_xdr, token, salt);
        sha256_digest(env, buf.as_slice())
    }
}

} // verus!

verus! {

/// A commitment is final: once batch `payroll_id` is committed, a later
/// commitment of the same id, by anyone and with any root, changes nothing.
pub proof fn lemma_commitment_is_final(
    m: Map<u64, CommitmentView>,
    org: Seq<u8>,
    payroll_id: u64,
    root: Seq<u8>,
    employee_count: u32,
    expiration_timestamp: Option<u64>,
    now: u64,
    org2: Seq<u8>,
    root2: Seq<u8>,
    employee_count2: u32,
    expiration_timestamp2: Option<u64>,
    now2: u64,
)
    requires
        employee_count != 0,
        !m.contains_key(payroll_id),
    ensures
        ({
            let m1 = after_commit(m, org, payroll_id, root, employee_count, expiration_timestamp, now);
            &&& m1.contains_key(payroll_id)
            &&& after_commit(m1, org2, payroll_id, root2, employee_count2, expiration_timestamp2, now2) == m1
        }),
{
}

/// What a committed batch accepts: right after its commitment, a leaf with
/// a proof verifies at time `t` exactly when `t` is not past the batch's
/// expiration and the root computed from the leaf is the committed root.
pub proof fn lemma_committed_batch_verifies(
    m: Map<u64, CommitmentView>,
    org: Seq<u8>,
    payroll_id: u64,
    root: Seq<u8>,
    employee_count: u32,
    expiration_timestamp: Option<u64>,
    now: u64,
    t: u64,
    leaf: Seq<u8>,
    proof: Seq<Seq<u8>>,
    index: u32,
)
    requires
        employee_count != 0,
        !m.contains_key(payroll_id),
    ensures
        verifies(after_commit(m, org, payroll_id, root, employee_count, expiration_timestamp, now), t, payroll_id, leaf, proof, index)
            <==> (t <= expiration_for(now, expiration_timestamp) && merkle_root(leaf, proof, index as nat) == root),
{
}

/// Nothing verifies against a batch that is unknown or past its
/// expiration.
pub proof fn lemma_expired_or_unknown_batch_rejects(
    m: Map<u64, CommitmentView>,
    t: u64,
    payroll_id: u64,
    leaf: Seq<u8>,
    proof: Seq<Seq<u8>>,
    index: u32,
)
    requires
        !m.contains_key(payroll_id) || t > m[payroll_id].expiration_timestamp,
    ensures
        !verifies(m, t, payroll_id, leaf, proof, index),
{
}

/// Reclaiming closes a batch for good: once reclaimed, no leaf verifies
/// against it at any time, and a second reclaim changes nothing.
pub proof fn lemma_reclaim_closes_batch(
    m: Map<u64, CommitmentView>,
    org: Seq<u8>,
    payroll_id: u64,
    now: u64,
    t: u64,
    leaf: Seq<u8>,
    proof: Seq<Seq<u8>>,
    index: u32,
    org2: Seq<u8>,
    now2: u64,
)
    requires
        reclaim_ok(m, org, payroll_id, now),
    ensures
        !verifies(after_reclaim(m, org, payroll_id, now), t, payroll_id, leaf, proof, index),
        after_reclaim(after_reclaim(m, org, payroll_id, now), org2, payroll_id, now2) == after_reclaim(m, org, payroll_id, now),
{
}

/// Only the committing organization can reclaim a batch, and only once it
/// has reached its expiration; reclaiming keeps the batch's root, count and
/// expiration.
pub proof fn lemma_reclaim_needs_owner_and_expiry(
    m: Map<u64, CommitmentView>,
    org: Seq<u8>,
    payroll_id: u64,
    now: u64,
)
    requires
        m.contains_key(payroll_id),
    ensures
        reclaim_ok(m, org, payroll_id, now) ==> org == m[payroll_id].org && now >= m[payroll_id].expiration_timestamp,
        ({
            let c = after_reclaim(m, org, payroll_id, now)[payroll_id];
            &&& c.org == m[payroll_id].org
            &&& c.merkle_root == m[payroll_id].merkle_root
            &&& c.employee_count == m[payroll_id].employee_count
            &&& c.expiration_timestamp == m[payroll_id].expiration_timestamp
        }),
{
}

/// Committing or reclaiming one batch leaves every other batch as it was.
pub proof fn lemma_operations_touch_only_their_batch(
    m: Map<u64, CommitmentView>,
    org: Seq<u8>,
    payroll_id: u64,
    other: u64,
    root: Seq<u8>,
    employee_count: u32,
    expiration_timestamp: Option<u64>,
    now: u64,
)
    requires
        payroll_id != other,
    ensures
        after_commit(m, org, payroll_id, root, employee_count, expiration_timestamp, now).contains_key(other) == m.contains_key(other),
        after_commit(m, org, payroll_id, root, employee_count, expiration_timestamp, now)[other] == m[other],
        after_reclaim(m, org, payroll_id, now).contains_key(other) == m.contains_key(other),
        after_reclaim(m, org, payroll_id, now)[other] == m[other],
{
}

/// A proof reads only as many bits of the leaf's position as it has
/// levels: the root is the same for `index` and for `index` taken modulo
/// `2^proof.len()`.
pub proof fn lemma_root_ignores_high_index_bits(leaf: Seq<u8>, proof: Seq<Seq<u8>>, index: nat)
    ensures
        merkle_root(leaf, proof, index) == merkle_root(leaf, proof, index % pow2(proof.len())),
    decreases proof.len(),
{
    if proof.len() > 0 {
        let k = proof.len();
        let b = pow2((k - 1) as nat);
        lemma_pow2_unfold(k);
        lemma_pow2_pos((k - 1) as nat);
        let r = index % (2 * b);
        lemma_mod_mod(index as int, 2, b as int);
        lemma_mod_breakdown(index as int, 2, b as int);
        assert(r % 2 == index % 2);
        let q = (index / 2) % b;
        assert(r == 2 * q + index % 2);
        lemma_fundamental_div_mod_converse(r as int, 2, q as int, (index % 2) as int);
        assert(r / 2 == q);
        assert(node_hash(leaf, proof[0], index) == node_hash(leaf, proof[0], r));
        lemma_root_ignores_high_index_bits(node_hash(leaf, proof[0], index), proof.drop_first(), index / 2);
        assert(proof.drop_first().len() == k - 1);
        assert(index % pow2(k) == r);
        assert(merkle_root(leaf, proof, r) == merkle_root(node_hash(leaf, proof[0], r), proof.drop_first(), r / 2));
        assert(merkle_root(leaf, proof, index) == merkle_root(node_hash(leaf, proof[0], index), proof.drop_first(), index / 2));
    } else {
        lemma_pow2_pos(0);
        assert(merkle_root(leaf, proof, index) == leaf);
        assert(merkle_root(leaf, proof, index % pow2(proof.len())) == leaf);
    }
}

/// The root of the complete binary tree over `leaves`, built top-down: the
/// hash `sha256(0x01 || left || right)` of the roots of its two halves, and
/// a single leaf for a one-leaf tree.
pub open spec fn tree_root(leaves: Seq<Seq<u8>>) -> Seq<u8>
    decreases leaves.len(),
{
    if leaves.len() <= 1 {
        leaves[0]
    } else {
        let h = leaves.len() / 2;
        sha256(seq![1u8] + tree_root(leaves.subrange(0, h as int)) + tree_root(leaves.subrange(h as int, leaves.len() as int)))
    }
}

/// The siblings on the way from leaf `i` of the complete binary tree over
/// `leaves` up to its root, lowest level first.
pub open spec fn sibling_path(leaves: Seq<Seq<u8>>, i: int) -> Seq<Seq<u8>>
    decreases leaves.len(),
{
    if leaves.len() <= 1 {
        Seq::empty()
    } else {
        let h = leaves.len() / 2;
        let left = leaves.subrange(0, h as int);
        let right = leaves.subrange(h as int, leaves.len() as int);
        if i < h {
            sibling_path(left, i).push(tree_root(right))
        } else {
            sibling_path(right, i - h).push(tree_root(left))
        }
    }
}

/// The sibling path of a tree of `2^d` leaves has `d` entries.
pub proof fn lemma_sibling_path_len(leaves: Seq<Seq<u8>>, d: nat, i: int)
    requires
        leaves.len() == pow2(d),
    ensures
        sibling_path(leaves, i).len() == d,
    decreases d,
{
    lemma_pow2_pos(d);
    if d > 0 {
        lemma_pow2_unfold(d);
        let h = leaves.len() / 2;
        assert(h == pow2((d - 1) as nat));
        if i < h {
            lemma_sibling_path_len(leaves.subrange(0, h as int), (d - 1) as nat, i);
        } else {
            lemma_sibling_path_len(leaves.subrange(h as int, leaves.len() as int), (d - 1) as nat, i - h);
        }
    } else {
        assert(pow2(0) == 1) by {
            vstd::arithmetic::power2::lemma2_to64();
        }
    }
}

/// Hashing one more sibling on top of a path: the root from `proof` then
/// `top` is the node above the root from `proof`, on the side that bit
/// `proof.len()` of `index` gives.
pub proof fn lemma_root_of_extended_path(leaf: Seq<u8>, proof: Seq<Seq<u8>>, top: Seq<u8>, index: nat)
    ensures
        merkle_root(leaf, proof.push(top), index)
            == node_hash(merkle_root(leaf, proof, index), top, index / pow2(proof.len())),
    decreases proof.len(),
{
    if proof.len() == 0 {
        assert(pow2(0) == 1) by {
            vstd::arithmetic::power2::lemma2_to64();
        }
        assert(proof.push(top).drop_first().len() == 0);
        assert(merkle_root(leaf, proof.push(top), index)
            == merkle_root(node_hash(leaf, top, index), proof.push(top).drop_first(), index / 2));
    } else {
        let k = proof.len();
        lemma_pow2_unfold(k);
        lemma_pow2_pos((k - 1) as nat);
        let h = node_hash(leaf, proof[0], index);
        assert(proof.push(top).drop_first() =~= proof.drop_first().push(top));
        assert(proof.push(top)[0] == proof[0]);
        lemma_root_of_extended_path(h, proof.drop_first(), top, index / 2);
        lemma_div_denominator(index as int, 2, pow2((k - 1) as nat) as int);
        assert((index / 2) / pow2((k - 1) as nat) == index / pow2(k));
    }
}

/// Every leaf of a complete binary tree, with its sibling path, hashes up to
/// the tree's root at its own position: the position's bits, lowest first,
/// say on which side the path's node sits at each level.
pub proof fn lemma_every_leaf_reaches_tree_root(leaves: Seq<Seq<u8>>, d: nat, i: nat)
    requires
        leaves.len() == pow2(d),
        i < leaves.len(),
    ensures
        merkle_root(leaves[i as int], sibling_path(leaves, i as int), i) == tree_root(leaves),
    decreases d,
{
    lemma_pow2_pos(d);
    if d == 0 {
        assert(pow2(0) == 1) by {
            vstd::arithmetic::power2::lemma2_to64();
        }
    } else {
        lemma_pow2_unfold(d);
        let h = leaves.len() / 2;
        let hd = pow2((d - 1) as nat);
        assert(h == hd);
        let left = leaves.subrange(0, h as int);
        let right = leaves.subrange(h as int, leaves.len() as int);
        if i < h {
            lemma_every_leaf_reaches_tree_root(left, (d - 1) as nat, i);
            lemma_sibling_path_len(left, (d - 1) as nat, i as int);
            assert(left[i as int] == leaves[i as int]);
            lemma_root_of_extended_path(leaves[i as int], sibling_path(left, i as int), tree_root(right), i);
            lemma_fundamental_div_mod_converse(i as int, hd as int, 0, i as int);
        } else {
            let j = (i - h) as nat;
            lemma_every_leaf_reaches_tree_root(right, (d - 1) as nat, j);
            lemma_sibling_path_len(right, (d - 1) as nat, j as int);
            assert(right[j as int] == leaves[i as int]);
            let p = sibling_path(right, j as int);
            lemma_root_ignores_high_index_bits(leaves[i as int], p, i);
            lemma_root_ignores_high_index_bits(leaves[i as int], p, j);
            lemma_fundamental_div_mod_converse(i as int, hd as int, 1, j as int);
            lemma_fundamental_div_mod_converse(j as int, hd as int, 0, j as int);
            lemma_root_of_extended_path(leaves[i as int], p, tree_root(left), i);
        }
    }
}

/// Whoever holds a leaf of a committed complete tree and its sibling path
/// verifies at the leaf's own position, until the batch expires.
pub proof fn lemma_every_leaf_of_committed_tree_verifies(
    m: Map<u64, CommitmentView>,
    org: Seq<u8>,
    payroll_id: u64,
    leaves: Seq<Seq<u8>>,
    d: nat,
    employee_count: u32,
    expiration_timestamp: Option<u64>,
    now: u64,
    t: u64,
    i: u32,
)
    requires
        leaves.len() == pow2(d),
        i < leaves.len(),
        employee_count != 0,
        !m.contains_key(payroll_id),
        t <= expiration_for(now, expiration_timestamp),
    ensures
        verifies(
            after_commit(m, org, payroll_id, tree_root(leaves), employee_count, expiration_timestamp, now),
            t,
            payroll_id,
            leaves[i as int],
            sibling_path(leaves, i as int),
            i,
        ),
{
    lemma_every_leaf_reaches_tree_root(leaves, d, i as nat);
    lemma_committed_batch_verifies(
        m, org, payroll_id, tree_root(leaves), employee_count, expiration_timestamp, now, t,
        leaves[i as int], sibling_path(leaves, i as int), i,
    );
}

/// A commitment keeps the expiration it is given: a nonzero expiration
/// timestamp is recorded as given, however far from the time of
/// commitment; an absent or zero one becomes the time of commitment plus
/// the default window.
pub proof fn lemma_commit_keeps_requested_expiration(
    m: Map<u64, CommitmentView>,
    org: Seq<u8>,
    payroll_id: u64,
    root: Seq<u8>,
    employee_count: u32,
    e: u64,
    now: u64,
)
    requires
        employee_count != 0,
        !m.contains_key(payroll_id),
    ensures
        e > 0 ==> after_commit(m, org, payroll_id, root, employee_count, Some(e), now)[payroll_id].expiration_timestamp == e,
        now + DEFAULT_EXPIRATION_WINDOW <= u64::MAX ==> {
            &&& after_commit(m, org, payroll_id, root, employee_count, None, now)[payroll_id].expiration_timestamp
                == now + DEFAULT_EXPIRATION_WINDOW
            &&& after_commit(m, org, payroll_id, root, employee_count, Some(0), now)[payroll_id].expiration_timestamp
                == now + DEFAULT_EXPIRATION_WINDOW
        },
{
}

/// The leaf preimage lays out its parts unchanged, one after another: the
/// `0x00` prefix, then the recipient, the amount's encoding, the token and
/// the salt, each at its own offset.
pub proof fn lemma_leaf_preimage_layout(recipient: Seq<u8>, amount_xdr: Seq<u8>, token: Seq<u8>, salt: Seq<u8>)
    ensures
        ({
            let p = leaf_preimage(recipient, amount_xdr, token, salt);
            let a = 1 + recipient.len();
            let b = a + amount_xdr.len();
            let c = b + token.len();
            &&& p.len() == c + salt.len()
            &&& p[0] == 0u8
            &&& p.subrange(1, a as int) == recipient
            &&& p.subrange(a as int, b as int) == amount_xdr
            &&& p.subrange(b as int, c as int) == token
            &&& p.subrange(c as int, p.len() as int) == salt
        }),
{
    let p = leaf_preimage(recipient, amount_xdr, token, salt);
    let a = 1 + recipient.len();
    let b = a + amount_xdr.len();
    let c = b + token.len();
    assert(p.subrange(1, a as int) =~= recipient);
    assert(p.subrange(a as int, b as int) =~= amount_xdr);
    assert(p.subrange(b as int, c as int) =~= token);
    assert(p.subrange(c as int, p.len() as int) =~= salt);
}

/// Different amounts give different leaf preimages: with the same
/// recipient, token and salt, two disbursements of different amounts never
/// share a preimage.
pub proof fn lemma_leaf_preimage_separates_amounts(recipient: Seq<u8>, token: Seq<u8>, salt: Seq<u8>, x: i128, y: i128)
    requires
        x != y,
    ensures
        leaf_preimage(recipient, i128_xdr(x), token, salt) != leaf_preimage(recipient, i128_xdr(y), token, salt),
{
    lemma_leaf_preimage_layout(recipient, i128_xdr(x), token, salt);
    lemma_leaf_preimage_layout(recipient, i128_xdr(y), token, salt);
    lemma_i128_xdr_len(x);
    lemma_i128_xdr_len(y);
    if leaf_preimage(recipient, i128_xdr(x), token, salt) == leaf_preimage(recipient, i128_xdr(y), token, salt) {
        lemma_i128_xdr_injective(x, y);
    }
}

} // verus!
