//! The claim registry: a recipient holding a valid (leaf, proof) pair for a
//! committed payroll batch claims the payment, and a nullifier, spent on
//! the first claim, keeps the same payment from being claimed twice.

use vstd::prelude::*;
use crate::addr::{Addr, opt_view, duplicate_opt};
use crate::keymap::{KeyMap, MapKey};
use crate::effects::{TokenTransfer, outgoing_if, outgoing_transfer};
use crate::payroll::{
    CommitmentView, verifies, merkle_root, reclaim_ok, after_reclaim, after_commit, expiration_for,
    lemma_reclaim_closes_batch, lemma_committed_batch_verifies,
};

verus! {

/// Why a claim is refused.
#[derive(Clone, Copy, Debug, PartialEq, Eq, PartialOrd, Ord, Structural)]
pub enum Error {
    AlreadyClaimed,
    InvalidProof,
    InvalidAmount,
    TransferFailed,
}

impl Error {
    /// The contract error code of this error.
    pub fn code(&self) -> (c: u32)
        ensures
            c == match *self {
                Error::AlreadyClaimed => 1u32,
                Error::InvalidProof => 2u32,
                Error::InvalidAmount => 3u32,
                Error::TransferFailed => 4u32,
            },
    {
        match self {
            Error::AlreadyClaimed => 1,
            Error::InvalidProof => 2,
            Error::InvalidAmount => 3,
            Error::TransferFailed => 4,
        }
    }
}

/// A claim of one disbursement of a committed payroll batch.
#[derive(Clone, Debug, PartialEq, Eq)]
pub struct ClaimRequest {
    /// The payroll contract that holds the batch.
    pub payroll_contract: Addr,
    pub payroll_id: u64,
    /// Spent by the first claim that succeeds.
    pub nullifier: [u8; 32],
    pub leaf: [u8; 32],
    pub proof: Vec<[u8; 32]>,
    pub index: u32,
    pub recipient: Addr,
    pub amount: i128,
    pub token: Option<Addr>,
    /// The treasury that pays, if any.
    pub treasury_contract: Option<Addr>,
    /// The organization whose treasury balance pays; the recipient if absent.
    pub org: Option<Addr>,
}

/// Published when a claim succeeds.
#[derive(Clone, Debug, PartialEq, Eq)]
pub struct ClaimedEvent {
    pub recipient: Addr,
    pub payroll_id: u64,
    pub nullifier: [u8; 32],
    pub amount: i128,
    pub token: Option<Addr>,
}

/// How a successful claim is paid.
#[derive(Clone, Debug, PartialEq, Eq)]
pub enum Payout {
    /// The treasury at `treasury` disburses `amount` of `org`'s balance to
    /// `recipient`, in `token` or else in its default token.
    ViaTreasury { treasury: Addr, org: Addr, recipient: Addr, amount: i128, token: Option<Addr> },
    /// The claim contract transfers tokens of its own.
    Direct(TokenTransfer),
}

/// A disbursement as the claim contract pays it at most once: the leaf of
/// batch `payroll_id` of the payroll contract at `payroll_contract`.
#[derive(Clone, Debug, PartialEq, Eq)]
pub struct PaidLeaf {
    pub payroll_contract: Addr,
    pub payroll_id: u64,
    pub leaf: [u8; 32],
}

impl View for PaidLeaf {
    type V = (Seq<u8>, u64, Seq<u8>);

    open spec fn view(&self) -> (Seq<u8>, u64, Seq<u8>) {
        (self.payroll_contract@, self.payroll_id, self.leaf@)
    }
}

impl MapKey for PaidLeaf {
    fn same_key(&self, other: &Self) -> (same: bool) {
        self.payroll_contract.same(&other.payroll_contract) && self.payroll_id == other.payroll_id
            && self.leaf.same_key(&other.leaf)
    }

    fn copy_key(&self) -> (k: Self) {
        PaidLeaf { payroll_contract: self.payroll_contract.duplicate(), payroll_id: self.payroll_id, leaf: self.leaf }
    }
}

/// The disbursement that `request` claims.
pub open spec fn payment_of(request: ClaimRequest) -> (Seq<u8>, u64, Seq<u8>) {
    (request.payroll_contract@, request.payroll_id, request.leaf@)
}

/// A claim that stands: how it is paid, if at all, and its event.
#[derive(Debug, PartialEq, Eq)]
pub struct ClaimSettlement {
    pub payout: Option<Payout>,
    pub event: ClaimedEvent,
}

/// The payout that `request` calls for once its proof is accepted: nothing
/// for a non-positive amount; else a disbursement by the request's
/// treasury, from `org` or else from the recipient's own balance; else a
/// direct transfer of the request's token; else nothing.
pub open spec fn pays_as_requested(p: Option<Payout>, request: ClaimRequest) -> bool {
    if request.amount <= 0 {
        p is None
    } else if request.treasury_contract is Some {
        let payer = if request.org is Some { opt_view(request.org) } else { Some(request.recipient@) };
        &&& p matches Some(Payout::ViaTreasury { treasury: t, org: o, recipient: rc, amount: a, token: tk })
        &&& Some(t@) == opt_view(request.treasury_contract)
        &&& Some(o@) == payer
        &&& rc@ == request.recipient@
        &&& a == request.amount
        &&& opt_view(tk) == opt_view(request.token)
    } else if request.token is Some {
        &&& p matches Some(Payout::Direct(t))
        &&& outgoing_if(Some(t), opt_view(request.token), request.recipient@, request.amount)
    } else {
        p is None
    }
}

/// The claim contract's state as plain values: the nullifiers spent and
/// the disbursements paid so far.
pub struct ClaimState {
    pub spent: Set<Seq<u8>>,
    pub paid: Set<(Seq<u8>, u64, Seq<u8>)>,
}

impl ClaimState {
    /// The state of a freshly deployed claim contract.
    pub open spec fn fresh() -> Self {
        ClaimState { spent: Set::empty(), paid: Set::empty() }
    }
}

/// A claim attempt, by what decides it: its nullifier, the disbursement it
/// claims, and the payroll contract's answer on its proof.
pub struct ClaimAttempt {
    pub nullifier: Seq<u8>,
    pub payment: (Seq<u8>, u64, Seq<u8>),
    pub proof_valid: bool,
}

/// Why a claim is refused: `AlreadyClaimed` when its nullifier is spent or
/// its disbursement already paid, else `InvalidProof` when the payroll
/// contract rejected its proof; `None` when it stands.
pub open spec fn claim_error(s: ClaimState, a: ClaimAttempt) -> Option<Error> {
    if s.spent.contains(a.nullifier) || s.paid.contains(a.payment) {
        Some(Error::AlreadyClaimed)
    } else if !a.proof_valid {
        Some(Error::InvalidProof)
    } else {
        None
    }
}

/// The state after a claim: a claim that stands spends its nullifier and
/// marks its disbursement paid.
pub open spec fn after_claim(s: ClaimState, a: ClaimAttempt) -> ClaimState {
    if claim_error(s, a) is None {
        ClaimState { spent: s.spent.insert(a.nullifier), paid: s.paid.insert(a.payment) }
    } else {
        s
    }
}

/// The attempt that `request` makes given the payroll contract's answer.
pub open spec fn attempt_of(request: ClaimRequest, proof_valid: bool) -> ClaimAttempt {
    ClaimAttempt { nullifier: request.nullifier@, payment: payment_of(request), proof_valid }
}

/// The state after the claims `claims`, in order.
pub open spec fn after_claims(s: ClaimState, claims: Seq<ClaimAttempt>) -> ClaimState
    decreases claims.len(),
{
    if claims.len() == 0 { s } else { after_claims(after_claim(s, claims[0]), claims.drop_first()) }
}

/// The nullifiers of those claims of `claims` that stand when made in order
/// from `s`.
pub open spec fn successful_nullifiers(s: ClaimState, claims: Seq<ClaimAttempt>) -> Set<Seq<u8>>
    decreases claims.len(),
{
    if claims.len() == 0 {
        Set::empty()
    } else {
        let first = if claim_error(s, claims[0]) is None { Set::empty().insert(claims[0].nullifier) } else { Set::empty() };
        first.union(successful_nullifiers(after_claim(s, claims[0]), claims.drop_first()))
    }
}

/// The disbursements of those claims of `claims` that stand when made in
/// order from `s`.
pub open spec fn successful_payments(s: ClaimState, claims: Seq<ClaimAttempt>) -> Set<(Seq<u8>, u64, Seq<u8>)>
    decreases claims.len(),
{
    if claims.len() == 0 {
        Set::empty()
    } else {
        let first = if claim_error(s, claims[0]) is None { Set::empty().insert(claims[0].payment) } else { Set::empty() };
        first.union(successful_payments(after_claim(s, claims[0]), claims.drop_first()))
    }
}

/// The claim contract's state: the nullifiers spent and the disbursements
/// paid so far.
pub struct ClaimContract {
    spent: KeyMap<[u8; 32], bool>,
    paid: KeyMap<PaidLeaf, bool>,
}

impl View for ClaimContract {
    type V = ClaimState;

    closed spec fn view(&self) -> ClaimState {
        ClaimState { spent: self.spent@.dom(), paid: self.paid@.dom() }
    }
}

impl ClaimContract {
    /// The contract's invariant: its maps are well formed.
    pub closed spec fn wf(&self) -> bool {
        self.spent.wf() && self.paid.wf()
    }

    /// A freshly deployed claim contract: no nullifier spent, nothing paid.
    pub fn new() -> (c: ClaimContract)
        ensures
            c.wf(),
            c@ == ClaimState::fresh(),
    {
        let c = ClaimContract { spent: KeyMap::new(), paid: KeyMap::new() };
        assert(c@.spent =~= Set::<Seq<u8>>::empty());
        assert(c@.paid =~= Set::<(Seq<u8>, u64, Seq<u8>)>::empty());
        c
    }

    /// Whether `nullifier` has been spent.
    pub fn check_nullifier(&self, nullifier: &[u8; 32]) -> (spent: bool)
        requires
            self.wf(),
        ensures
            spent == self@.spent.contains(nullifier@),
    {
        self.spent.contains_key(nullifier)
    }

    /// The disbursement that `request` claims.
    pub fn payment(request: &ClaimRequest) -> (p: PaidLeaf)
        ensures
            p@ == payment_of(*request),
    {
        PaidLeaf { payroll_contract: request.payroll_contract.duplicate(), payroll_id: request.payroll_id, leaf: request.leaf }
    }

    /// Whether `request` is refused before its proof is looked at: its
    /// nullifier is spent or its disbursement already paid.
    pub fn is_claimed(&self, request: &ClaimRequest) -> (claimed: bool)
        requires
            self.wf(),
        ensures
            claimed == (self@.spent.contains(request.nullifier@) || self@.paid.contains(payment_of(*request))),
    {
        self.spent.contains_key(&request.nullifier) || self.paid.contains_key(&Self::payment(request))
    }

    /// Loads a stored spent nullifier.
    pub fn restore_spent(&mut self, nullifier: [u8; 32])
        requires
            old(self).wf(),
        ensures
            final(self).wf(),
            final(self)@ == (ClaimState { spent: old(self)@.spent.insert(nullifier@), ..old(self)@ }),
    {
        self.spent.insert(nullifier, true);
        proof {
            assert(self@.spent =~= old(self)@.spent.insert(nullifier@));
        }
    }

    /// Loads a stored paid disbursement.
    pub fn restore_paid(&mut self, payment: PaidLeaf)
        requires
            old(self).wf(),
        ensures
            final(self).wf(),
            final(self)@ == (ClaimState { paid: old(self)@.paid.insert(payment@), ..old(self)@ }),
    {
        let ghost pv = payment@;
        self.paid.insert(payment, true);
        proof {
            assert(self@.paid =~= old(self)@.paid.insert(pv));
        }
    }

    /// Settles `request`. `proof_valid` is the answer of the payroll
    /// contract at `request.payroll_contract` to `verify_disbursement` of
    /// the request's batch, leaf, proof and index; it is read only when
    /// `is_claimed` is false, so that the payroll contract need not be
    /// asked otherwise. Refused with `AlreadyClaimed` when the nullifier is
    /// spent or the same leaf of the same batch was already paid, and with
    /// `InvalidProof` when the proof was rejected; otherwise spends the
    /// nullifier, marks the leaf paid and says how the claim is paid.
    pub fn claim_payment(&mut self, request: &ClaimRequest, proof_valid: bool) -> (r: Result<ClaimSettlement, Error>)
        requires
            old(self).wf(),
        ensures
            final(self).wf(),
            final(self)@ == after_claim(old(self)@, attempt_of(*request, proof_valid)),
            match claim_error(old(self)@, attempt_of(*request, proof_valid)) {
                Some(e) => r == Err::<ClaimSettlement, Error>(e),
                None => {
                    &&& r matches Ok(s)
                    &&& pays_as_requested(s.payout, *request)
                    &&& s.event.recipient@ == request.recipient@
                    &&& s.event.payroll_id == request.payroll_id
                    &&& s.event.nullifier@ == request.nullifier@
                    &&& s.event.amount == request.amount
                    &&& opt_view(s.event.token) == opt_view(request.token)
                },
            },
    {
        if self.is_claimed(request) {
            return Err(Error::AlreadyClaimed);
        }
        if !proof_valid {
            return Err(Error::InvalidProof);
        }
        let payout = if request.amount > 0 {
            match &request.treasury_contract {
                Some(treasury) => {
                    let org = match &request.org {
                        Some(o) => o.duplicate(),
                        None => request.recipient.duplicate(),
                    };
                    Some(Payout::ViaTreasury {
                        treasury: treasury.duplicate(),
                        org,
                        recipient: request.recipient.duplicate(),
                        amount: request.amount,
                        token: duplicate_opt(&request.token),
                    })
                },
                None => match outgoing_transfer(&request.token, &request.recipient, request.amount) {
                    Some(t) => Some(Payout::Direct(t)),
                    None => None,
                },
            }
        } else {
            None
        };
        let ghost before = self@;
        self.spent.insert(request.nullifier, true);
        self.paid.insert(Self::payment(request), true);
        proof {
            assert(self@.spent =~= before.spent.insert(request.nullifier@));
            assert(self@.paid =~= before.paid.insert(payment_of(*request)));
        }
        let event = ClaimedEvent {
            recipient: request.recipient.duplicate(),
            payroll_id: request.payroll_id,
            nullifier: request.nullifier,
            amount: request.amount,
            token: duplicate_opt(&request.token),
        };
        Ok(ClaimSettlement { payout, event })
    }
}

} // verus!

verus! {

/// A nullifier is spent once: after a claim with it stands, every later
/// claim with it is refused with `AlreadyClaimed` and changes nothing.
pub proof fn lemma_nullifier_spent_once(s: ClaimState, a: ClaimAttempt, later: ClaimAttempt)
    requires
        claim_error(s, a) is None,
        later.nullifier == a.nullifier,
    ensures
        after_claim(s, a).spent.contains(a.nullifier),
        claim_error(after_claim(s, a), later) == Some(Error::AlreadyClaimed),
        after_claim(after_claim(s, a), later) == after_claim(s, a),
{
}

/// A disbursement is paid once: after a claim of a leaf of a batch stands,
/// every later claim of the same leaf of the same batch is refused with
/// `AlreadyClaimed`, whatever its nullifier, and changes nothing.
pub proof fn lemma_leaf_paid_once(s: ClaimState, a: ClaimAttempt, later: ClaimAttempt)
    requires
        claim_error(s, a) is None,
        later.payment == a.payment,
    ensures
        after_claim(s, a).paid.contains(a.payment),
        claim_error(after_claim(s, a), later) == Some(Error::AlreadyClaimed),
        after_claim(after_claim(s, a), later) == after_claim(s, a),
{
}

/// Spent nullifiers stay spent and paid disbursements stay paid.
pub proof fn lemma_claims_only_grow(s: ClaimState, a: ClaimAttempt)
    ensures
        s.spent.subset_of(after_claim(s, a).spent),
        s.paid.subset_of(after_claim(s, a).paid),
{
}

/// After any sequence of claims, the spent nullifiers are exactly those
/// spent before together with the nullifiers of the claims that stood, and
/// the paid disbursements likewise.
pub proof fn lemma_state_is_successful_claims(s: ClaimState, claims: Seq<ClaimAttempt>)
    ensures
        after_claims(s, claims).spent == s.spent.union(successful_nullifiers(s, claims)),
        after_claims(s, claims).paid == s.paid.union(successful_payments(s, claims)),
    decreases claims.len(),
{
    if claims.len() > 0 {
        let next = after_claim(s, claims[0]);
        lemma_state_is_successful_claims(next, claims.drop_first());
        assert(after_claims(s, claims).spent =~= s.spent.union(successful_nullifiers(s, claims)));
        assert(after_claims(s, claims).paid =~= s.paid.union(successful_payments(s, claims)));
    } else {
        assert(s.spent.union(Set::empty()) =~= s.spent);
        assert(s.paid.union(Set::empty()) =~= s.paid);
    }
}

/// From a freshly deployed claim contract, a nullifier is spent after a
/// sequence of claims exactly when one of those claims with it stood, and a
/// disbursement is paid exactly when one of those claims of it stood.
pub proof fn lemma_fresh_state_is_successful_claims(claims: Seq<ClaimAttempt>)
    ensures
        after_claims(ClaimState::fresh(), claims).spent == successful_nullifiers(ClaimState::fresh(), claims),
        after_claims(ClaimState::fresh(), claims).paid == successful_payments(ClaimState::fresh(), claims),
{
    lemma_state_is_successful_claims(ClaimState::fresh(), claims);
    assert(Set::<Seq<u8>>::empty().union(successful_nullifiers(ClaimState::fresh(), claims))
        =~= successful_nullifiers(ClaimState::fresh(), claims));
    assert(Set::<(Seq<u8>, u64, Seq<u8>)>::empty().union(successful_payments(ClaimState::fresh(), claims))
        =~= successful_payments(ClaimState::fresh(), claims));
}

/// A claim judged by the payroll registry `payrolls` at time `now` stands
/// only for a leaf of a committed batch that is neither reclaimed nor
/// expired, and whose proof leads to the batch's committed root.
pub proof fn lemma_claim_needs_committed_leaf(
    payrolls: Map<u64, CommitmentView>,
    now: u64,
    s: ClaimState,
    nullifier: Seq<u8>,
    payroll_contract: Seq<u8>,
    payroll_id: u64,
    leaf: Seq<u8>,
    proof: Seq<Seq<u8>>,
    index: u32,
)
    requires
        claim_error(s, ClaimAttempt {
            nullifier,
            payment: (payroll_contract, payroll_id, leaf),
            proof_valid: verifies(payrolls, now, payroll_id, leaf, proof, index),
        }) is None,
    ensures
        payrolls.contains_key(payroll_id),
        !payrolls[payroll_id].reclaimed,
        now <= payrolls[payroll_id].expiration_timestamp,
        merkle_root(leaf, proof, index as nat) == payrolls[payroll_id].merkle_root,
{
}

/// Once its organization has reclaimed a batch, no claim against that
/// batch stands, at any time and with any proof.
pub proof fn lemma_no_claim_after_reclaim(
    payrolls: Map<u64, CommitmentView>,
    org: Seq<u8>,
    payroll_id: u64,
    reclaimed_at: u64,
    now: u64,
    s: ClaimState,
    nullifier: Seq<u8>,
    payroll_contract: Seq<u8>,
    leaf: Seq<u8>,
    proof: Seq<Seq<u8>>,
    index: u32,
)
    requires
        reclaim_ok(payrolls, org, payroll_id, reclaimed_at),
    ensures
        claim_error(s, ClaimAttempt {
            nullifier,
            payment: (payroll_contract, payroll_id, leaf),
            proof_valid: verifies(after_reclaim(payrolls, org, payroll_id, reclaimed_at), now, payroll_id, leaf, proof, index),
        }) is Some,
{
    lemma_reclaim_closes_batch(payrolls, org, payroll_id, reclaimed_at, now, leaf, proof, index, org, reclaimed_at);
}

/// Possession is enough: whoever holds a leaf and a proof that lead to the
/// root of a freshly committed batch can claim it, with an unspent
/// nullifier and while the leaf is unpaid, at any time up to the batch's
/// expiration.
pub proof fn lemma_holder_of_valid_proof_can_claim(
    payrolls: Map<u64, CommitmentView>,
    org: Seq<u8>,
    payroll_id: u64,
    root: Seq<u8>,
    employee_count: u32,
    expiration_timestamp: Option<u64>,
    committed_at: u64,
    now: u64,
    s: ClaimState,
    nullifier: Seq<u8>,
    payroll_contract: Seq<u8>,
    leaf: Seq<u8>,
    proof: Seq<Seq<u8>>,
    index: u32,
)
    requires
        employee_count != 0,
        !payrolls.contains_key(payroll_id),
        merkle_root(leaf, proof, index as nat) == root,
        now <= expiration_for(committed_at, expiration_timestamp),
        !s.spent.contains(nullifier),
        !s.paid.contains((payroll_contract, payroll_id, leaf)),
    ensures
        ({
            let committed = after_commit(payrolls, org, payroll_id, root, employee_count, expiration_timestamp, committed_at);
            claim_error(s, ClaimAttempt {
                nullifier,
                payment: (payroll_contract, payroll_id, leaf),
                proof_valid: verifies(committed, now, payroll_id, leaf, proof, index),
            }) is None
        }),
{
    lemma_committed_batch_verifies(
        payrolls, org, payroll_id, root, employee_count, expiration_timestamp, committed_at, now, leaf, proof, index,
    );
}

/// How much a payout pays; nothing when there is none.
pub open spec fn payout_amount(p: Option<Payout>) -> int {
    match p {
        Some(Payout::ViaTreasury { amount, .. }) => amount as int,
        Some(Payout::Direct(TokenTransfer::Outgoing { amount, .. })) => amount as int,
        Some(Payout::Direct(TokenTransfer::Incoming { amount, .. })) => amount as int,
        None => 0,
    }
}

/// A claim that stands with a positive amount is paid exactly that amount
/// to its recipient, and goes unpaid only when the request names neither a
/// treasury nor a token. When it names a treasury, that treasury pays out
/// of the named organization's balance (the recipient's own when none is
/// named), in the requested token or else its default one, whatever the
/// token is; only without a treasury does the token decide, and then the
/// claim contract pays in it directly.
pub proof fn lemma_claim_pays_requested_amount(p: Option<Payout>, request: ClaimRequest)
    requires
        pays_as_requested(p, request),
        request.amount > 0,
    ensures
        p is None <==> (request.treasury_contract is None && request.token is None),
        p is Some ==> payout_amount(p) == request.amount,
        request.treasury_contract is Some ==> {
            &&& p matches Some(Payout::ViaTreasury { treasury, org, recipient, token, .. })
            &&& Some(treasury@) == opt_view(request.treasury_contract)
            &&& org@ == (if request.org is Some { request.org->0@ } else { request.recipient@ })
            &&& recipient@ == request.recipient@
            &&& opt_view(token) == opt_view(request.token)
        },
        request.treasury_contract is None && request.token is Some ==> {
            &&& p matches Some(Payout::Direct(TokenTransfer::Outgoing { token, to, .. }))
            &&& Some(token@) == opt_view(request.token)
            &&& to@ == request.recipient@
        },
{
}

/// A claim for no positive amount pays nothing.
pub proof fn lemma_claim_without_amount_pays_nothing(p: Option<Payout>, request: ClaimRequest)
    requires
        pays_as_requested(p, request),
        request.amount <= 0,
    ensures
        p is None,
{
}

} // verus!
