//! The treasury: each organization's payroll funds, tracked per
//! organization on-chain. Deposits pull tokens in, withdrawals and
//! disbursements pay them out, and the admin may credit yield.

use vstd::prelude::*;
use crate::addr::{Addr, opt_view, duplicate_opt};
use crate::keymap::KeyMap;
use crate::effects::{Call, TokenTransfer, incoming_if, outgoing_if, incoming_transfer, outgoing_transfer, transfer_amount};

verus! {

/// Why a treasury call is refused.
#[derive(Clone, Copy, Debug, PartialEq, Eq, PartialOrd, Ord, Structural)]
pub enum Error {
    AlreadyInitialized,
    NotInitialized,
    InsufficientBalance,
    InvalidAmount,
}

impl Error {
    /// The contract error code of this error.
    pub fn code(&self) -> (c: u32)
        ensures
            c == match *self {
                Error::AlreadyInitialized => 1u32,
                Error::NotInitialized => 2u32,
                Error::InsufficientBalance => 3u32,
                Error::InvalidAmount => 4u32,
            },
    {
        match self {
            Error::AlreadyInitialized => 1,
            Error::NotInitialized => 2,
            Error::InsufficientBalance => 3,
            Error::InvalidAmount => 4,
        }
    }
}

/// Published when an organization deposits.
#[derive(Clone, Debug, PartialEq, Eq)]
pub struct DepositEvent {
    pub org: Addr,
    pub amount: i128,
    pub token: Option<Addr>,
}

/// Published when the admin releases funds of an organization.
#[derive(Clone, Debug, PartialEq, Eq)]
pub struct WithdrawEvent {
    pub org: Addr,
    pub recipient: Addr,
    pub amount: i128,
    pub token: Option<Addr>,
}

/// Published when the admin credits yield to an organization.
#[derive(Clone, Debug, PartialEq, Eq)]
pub struct YieldAllocatedEvent {
    pub org: Addr,
    pub amount: i128,
}

/// Published when funds are paid out to a verified claimant.
#[derive(Clone, Debug, PartialEq, Eq)]
pub struct DisbursedEvent {
    pub org: Addr,
    pub recipient: Addr,
    pub amount: i128,
    pub token: Option<Addr>,
}

/// A deposit that stands: the balance it leaves, the tokens it pulls in and
/// its event.
#[derive(Debug, PartialEq, Eq)]
pub struct Deposit {
    pub new_balance: i128,
    pub transfer: Option<TokenTransfer>,
    pub event: DepositEvent,
}

/// A withdrawal that stands: the balance it leaves, the tokens it pays out
/// and its event.
#[derive(Debug, PartialEq, Eq)]
pub struct Withdrawal {
    pub new_balance: i128,
    pub transfer: Option<TokenTransfer>,
    pub event: WithdrawEvent,
}

/// A disbursement that stands: the tokens it pays out and its event.
#[derive(Debug, PartialEq, Eq)]
pub struct Disbursement {
    pub transfer: Option<TokenTransfer>,
    pub event: DisbursedEvent,
}

/// A yield allocation that stands: the balance it leaves and its event.
#[derive(Debug, PartialEq, Eq)]
pub struct YieldAllocation {
    pub new_balance: i128,
    pub event: YieldAllocatedEvent,
}

/// The treasury's state as plain values. A balance that was never written
/// reads as zero.
pub struct TreasuryState {
    pub admin: Option<Seq<u8>>,
    pub default_token: Option<Seq<u8>>,
    pub claim_contract: Option<Seq<u8>>,
    pub balances: Map<Seq<u8>, i128>,
    pub token_balances: Map<(Seq<u8>, Seq<u8>), i128>,
}

impl TreasuryState {
    /// The aggregate balance of `org`.
    pub open spec fn balance(self, org: Seq<u8>) -> i128 {
        if self.balances.contains_key(org) { self.balances[org] } else { 0 }
    }

    /// The balance of `org` in `token`, as deposited with `deposit_token`.
    pub open spec fn token_balance(self, org: Seq<u8>, token: Seq<u8>) -> i128 {
        if self.token_balances.contains_key((org, token)) { self.token_balances[(org, token)] } else { 0 }
    }

    /// No balance is negative.
    pub open spec fn valid(self) -> bool {
        &&& forall|o: Seq<u8>| #[trigger] self.balances.contains_key(o) ==> self.balances[o] >= 0
        &&& forall|k: (Seq<u8>, Seq<u8>)| #[trigger] self.token_balances.contains_key(k)
            ==> self.token_balances[k] >= 0
    }

    /// The state with the aggregate balance of `org` set to `b`.
    pub open spec fn set_balance(self, org: Seq<u8>, b: int) -> Self {
        TreasuryState { balances: self.balances.insert(org, b as i128), ..self }
    }

    /// The state after `initialize(admin, default_token)`.
    pub open spec fn after_initialize(self, admin: Seq<u8>, default_token: Option<Seq<u8>>) -> Self {
        if self.admin is Some {
            self
        } else {
            TreasuryState {
                admin: Some(admin),
                default_token: if default_token is Some { default_token } else { self.default_token },
                ..self
            }
        }
    }

    /// The state after `set_token(token)`.
    pub open spec fn after_set_token(self, token: Seq<u8>) -> Self {
        if self.admin is None { self } else { TreasuryState { default_token: Some(token), ..self } }
    }

    /// The state after `deposit(org, amount)`.
    pub open spec fn after_deposit(self, org: Seq<u8>, amount: i128) -> Self {
        if amount <= 0 { self } else { self.set_balance(org, self.balance(org) + amount) }
    }

    /// The state after `deposit_token(org, token, amount)`.
    pub open spec fn after_deposit_token(self, org: Seq<u8>, token: Seq<u8>, amount: i128) -> Self {
        if amount <= 0 {
            self
        } else {
            TreasuryState {
                token_balances: self.token_balances.insert(
                    (org, token),
                    (self.token_balance(org, token) + amount) as i128,
                ),
                ..self.set_balance(org, self.balance(org) + amount)
            }
        }
    }

    /// Whether `withdraw(org, amount, _)` goes through.
    pub open spec fn withdraw_ok(self, org: Seq<u8>, amount: i128) -> bool {
        self.admin is Some && amount > 0 && self.balance(org) >= amount
    }

    /// The state after `withdraw(org, amount, _)`.
    pub open spec fn after_withdraw(self, org: Seq<u8>, amount: i128) -> Self {
        if self.withdraw_ok(org, amount) { self.set_balance(org, self.balance(org) - amount) } else { self }
    }

    /// The state after `set_claim_contract(claim_contract)`.
    pub open spec fn after_set_claim_contract(self, claim_contract: Seq<u8>) -> Self {
        if self.admin is None { self } else { TreasuryState { claim_contract: Some(claim_contract), ..self } }
    }

    /// Whose authorization `disburse` needs: the claim contract when one is
    /// recorded, else the admin; nobody's before `initialize`.
    pub open spec fn disburse_signer(self) -> Option<Seq<u8>> {
        if self.admin is None {
            None
        } else if self.claim_contract is Some {
            self.claim_contract
        } else {
            self.admin
        }
    }

    /// Whether `disburse(org, _, amount, _)` goes through.
    pub open spec fn disburse_ok(self, org: Seq<u8>, amount: i128) -> bool {
        self.admin is Some && amount > 0 && self.balance(org) >= amount
    }

    /// The state after `disburse(org, _, amount, _)`.
    pub open spec fn after_disburse(self, org: Seq<u8>, amount: i128) -> Self {
        if self.disburse_ok(org, amount) { self.set_balance(org, self.balance(org) - amount) } else { self }
    }

    /// The state after `allocate_yield(org, amount)`.
    pub open spec fn after_allocate_yield(self, org: Seq<u8>, amount: i128) -> Self {
        if self.admin is Some && amount > 0 { self.set_balance(org, self.balance(org) + amount) } else { self }
    }
}

/// A treasury call, by the arguments that decide its effect on the state.
pub enum TreasuryOp {
    Initialize { admin: Seq<u8>, default_token: Option<Seq<u8>> },
    SetToken { token: Seq<u8> },
    SetClaimContract { claim_contract: Seq<u8> },
    Deposit { org: Seq<u8>, amount: i128 },
    DepositToken { org: Seq<u8>, token: Seq<u8>, amount: i128 },
    Withdraw { org: Seq<u8>, amount: i128 },
    Disburse { org: Seq<u8>, amount: i128 },
    AllocateYield { org: Seq<u8>, amount: i128 },
}

impl TreasuryState {
    /// The state of a freshly deployed treasury.
    pub open spec fn fresh() -> Self {
        TreasuryState {
            admin: None,
            default_token: None,
            claim_contract: None,
            balances: Map::empty(),
            token_balances: Map::empty(),
        }
    }

    /// The state after `op`.
    pub open spec fn apply(self, op: TreasuryOp) -> Self {
        match op {
            TreasuryOp::Initialize { admin, default_token } => self.after_initialize(admin, default_token),
            TreasuryOp::SetToken { token } => self.after_set_token(token),
            TreasuryOp::SetClaimContract { claim_contract } => self.after_set_claim_contract(claim_contract),
            TreasuryOp::Deposit { org, amount } => self.after_deposit(org, amount),
            TreasuryOp::DepositToken { org, token, amount } => self.after_deposit_token(org, token, amount),
            TreasuryOp::Withdraw { org, amount } => self.after_withdraw(org, amount),
            TreasuryOp::Disburse { org, amount } => self.after_disburse(org, amount),
            TreasuryOp::AllocateYield { org, amount } => self.after_allocate_yield(org, amount),
        }
    }

    /// Whether `op` may be called in this state: the bounds that the
    /// operation's own `requires` puts on it, that no balance overflows.
    pub open spec fn admits(self, op: TreasuryOp) -> bool {
        match op {
            TreasuryOp::Deposit { org, amount } => amount > 0 ==> self.balance(org) + amount <= i128::MAX,
            TreasuryOp::DepositToken { org, token, amount } => amount > 0 ==> {
                &&& self.balance(org) + amount <= i128::MAX
                &&& self.token_balance(org, token) + amount <= i128::MAX
            },
            TreasuryOp::AllocateYield { org, amount } => self.admin is Some && amount > 0
                ==> self.balance(org) + amount <= i128::MAX,
            _ => true,
        }
    }

    /// Whether `op` returns `Ok` in this state.
    pub open spec fn succeeds(self, op: TreasuryOp) -> bool {
        match op {
            TreasuryOp::Initialize { .. } => self.admin is None,
            TreasuryOp::SetToken { .. } => self.admin is Some,
            TreasuryOp::SetClaimContract { .. } => self.admin is Some,
            TreasuryOp::Deposit { amount, .. } => amount > 0,
            TreasuryOp::DepositToken { amount, .. } => amount > 0,
            TreasuryOp::Withdraw { org, amount } => self.withdraw_ok(org, amount),
            TreasuryOp::Disburse { org, amount } => self.disburse_ok(org, amount),
            TreasuryOp::AllocateYield { amount, .. } => self.admin is Some && amount > 0,
        }
    }

    /// What `op` adds to the aggregate balance of `org` in this state: its
    /// amount for a successful deposit, token deposit or yield allocation
    /// to `org`, minus its amount for a successful withdrawal or
    /// disbursement from `org`, and nothing otherwise.
    pub open spec fn balance_change(self, op: TreasuryOp, org: Seq<u8>) -> int {
        if !self.succeeds(op) {
            0
        } else {
            match op {
                TreasuryOp::Deposit { org: o, amount } => if o == org { amount as int } else { 0 },
                TreasuryOp::DepositToken { org: o, amount, .. } => if o == org { amount as int } else { 0 },
                TreasuryOp::AllocateYield { org: o, amount } => if o == org { amount as int } else { 0 },
                TreasuryOp::Withdraw { org: o, amount } => if o == org { -amount } else { 0 },
                TreasuryOp::Disburse { org: o, amount } => if o == org { -amount } else { 0 },
                _ => 0,
            }
        }
    }

    /// What `op` adds to the balance of `org` in `token`: the amount of a
    /// successful `deposit_token` of that token by `org`, and nothing
    /// otherwise.
    pub open spec fn token_balance_change(self, op: TreasuryOp, org: Seq<u8>, token: Seq<u8>) -> int {
        match op {
            TreasuryOp::DepositToken { org: o, token: t, amount } =>
                if self.succeeds(op) && o == org && t == token { amount as int } else { 0 },
            _ => 0,
        }
    }

    /// The state after the calls `ops`, in order.
    pub open spec fn run(self, ops: Seq<TreasuryOp>) -> Self
        decreases ops.len(),
    {
        if ops.len() == 0 { self } else { self.apply(ops[0]).run(ops.drop_first()) }
    }

    /// Whether each call of `ops` may be made in the state it meets.
    pub open spec fn admits_all(self, ops: Seq<TreasuryOp>) -> bool
        decreases ops.len(),
    {
        ops.len() == 0 || (self.admits(ops[0]) && self.apply(ops[0]).admits_all(ops.drop_first()))
    }

    /// The sum of what the calls `ops` add to the aggregate balance of `org`.
    pub open spec fn net_balance_change(self, ops: Seq<TreasuryOp>, org: Seq<u8>) -> int
        decreases ops.len(),
    {
        if ops.len() == 0 {
            0
        } else {
            self.balance_change(ops[0], org) + self.apply(ops[0]).net_balance_change(ops.drop_first(), org)
        }
    }

    /// The sum of what the calls `ops` add to the balance of `org` in `token`.
    pub open spec fn net_token_balance_change(self, ops: Seq<TreasuryOp>, org: Seq<u8>, token: Seq<u8>) -> int
        decreases ops.len(),
    {
        if ops.len() == 0 {
            0
        } else {
            self.token_balance_change(ops[0], org, token)
                + self.apply(ops[0]).net_token_balance_change(ops.drop_first(), org, token)
        }
    }
}

/// The treasury contract's state.
pub struct TreasuryContract {
    admin: Option<Addr>,
    default_token: Option<Addr>,
    claim_contract: Option<Addr>,
    balances: KeyMap<Addr, i128>,
    token_balances: KeyMap<(Addr, Addr), i128>,
}

impl View for TreasuryContract {
    type V = TreasuryState;

    closed spec fn view(&self) -> TreasuryState {
        TreasuryState {
            admin: opt_view(self.admin),
            default_token: opt_view(self.default_token),
            claim_contract: opt_view(self.claim_contract),
            balances: self.balances@,
            token_balances: self.token_balances@,
        }
    }
}

impl TreasuryContract {
    /// The contract's invariant: its maps are well formed and no balance is
    /// negative.
    pub closed spec fn wf(&self) -> bool {
        &&& self.balances.wf()
        &&& self.token_balances.wf()
        &&& self@.valid()
    }

    /// A freshly deployed treasury: no admin, no default token, no claim
    /// contract, no balances.
    pub fn new() -> (t: TreasuryContract)
        ensures
            t.wf(),
            t@.admin is None,
            t@.default_token is None,
            t@.claim_contract is None,
            t@.balances == Map::<Seq<u8>, i128>::empty(),
            t@.token_balances == Map::<(Seq<u8>, Seq<u8>), i128>::empty(),
            t@ == TreasuryState::fresh(),
    {
        TreasuryContract {
            admin: None,
            default_token: None,
            claim_contract: None,
            balances: KeyMap::new(),
            token_balances: KeyMap::new(),
        }
    }

    fn balance_of(&self, org: &Addr) -> (b: i128)
        requires
            self.wf(),
        ensures
            b == self@.balance(org@),
            b >= 0,
    {
        match self.balances.get(org) {
            Some(b) => {
                assert(self@.balances.contains_key(org@));
                *b
            },
            None => 0,
        }
    }

    fn store_balance(&mut self, org: &Addr, b: i128)
        requires
            old(self).wf(),
            b >= 0,
        ensures
            final(self).wf(),
            final(self)@ == old(self)@.set_balance(org@, b as int),
    {
        self.balances.insert(org.duplicate(), b);
        proof {
            assert(self@.balances == old(self)@.balances.insert(org@, b));
        }
    }

    /// One-time setup: records `admin` and, if given, the default token.
    /// Refused with `AlreadyInitialized` once an admin is recorded.
    pub fn initialize(&mut self, admin: Addr, default_token: Option<Addr>) -> (r: Result<(), Error>)
        requires
            old(self).wf(),
        ensures
            final(self).wf(),
            final(self)@ == old(self)@.after_initialize(admin@, opt_view(default_token)),
            r is Err <==> old(self)@.admin is Some,
            r matches Err(e) ==> e == Error::AlreadyInitialized,
    {
        if self.admin.is_some() {
            return Err(Error::AlreadyInitialized);
        }
        self.admin = Some(admin);
        if default_token.is_some() {
            self.default_token = default_token;
        }
        Ok(())
    }

    /// The admin replaces the default token. Refused with `NotInitialized`
    /// before `initialize`; otherwise needs the admin's authorization.
    pub fn set_token(&mut self, token: Addr) -> (r: Call<(), Error>)
        requires
            old(self).wf(),
        ensures
            final(self).wf(),
            final(self)@ == old(self)@.after_set_token(token@),
            opt_view(r.signer) == old(self)@.admin,
            r.result is Err <==> old(self)@.admin is None,
            r.result matches Err(e) ==> e == Error::NotInitialized,
    {
        let signer = duplicate_opt(&self.admin);
        if signer.is_none() {
            return Call { signer, result: Err(Error::NotInitialized) };
        }
        self.default_token = Some(token);
        Call { signer, result: Ok(()) }
    }

    /// The default token, if one is set.
    pub fn get_token(&self) -> (t: Option<Addr>)
        ensures
            opt_view(t) == self@.default_token,
    {
        duplicate_opt(&self.default_token)
    }

    /// `org` deposits `amount` into its balance, which is returned. Refused
    /// with `InvalidAmount` unless `amount` is positive; otherwise needs
    /// `org`'s authorization and, when a default token is set, pulls
    /// `amount` of it from `org`.
    pub fn deposit(&mut self, org: &Addr, amount: i128) -> (r: Call<Deposit, Error>)
        requires
            old(self).wf(),
            amount > 0 ==> old(self)@.balance(org@) + amount <= i128::MAX,
        ensures
            final(self).wf(),
            final(self)@ == old(self)@.after_deposit(org@, amount),
            amount <= 0 ==> r.signer is None && r.result == Err::<Deposit, Error>(Error::InvalidAmount),
            amount > 0 ==> {
                &&& opt_view(r.signer) == Some(org@)
                &&& r.result matches Ok(d)
                &&& d.new_balance == old(self)@.balance(org@) + amount
                &&& incoming_if(d.transfer, old(self)@.default_token, org@, amount)
                &&& d.event.org@ == org@ && d.event.amount == amount
                &&& opt_view(d.event.token) == old(self)@.default_token
            },
    {
        if amount <= 0 {
            return Call { signer: None, result: Err(Error::InvalidAmount) };
        }
        let transfer = incoming_transfer(&self.default_token, org, amount);
        let new_balance = self.balance_of(org) + amount;
        self.store_balance(org, new_balance);
        let event = DepositEvent { org: org.duplicate(), amount, token: duplicate_opt(&self.default_token) };
        Call { signer: Some(org.duplicate()), result: Ok(Deposit { new_balance, transfer, event }) }
    }

    /// `org` deposits `amount` of `token`; both its balance in that token
    /// and its aggregate balance grow by `amount`, and the token balance is
    /// returned. Refused with `InvalidAmount` unless `amount` is positive;
    /// otherwise needs `org`'s authorization and pulls the tokens from `org`.
    pub fn deposit_token(&mut self, org: &Addr, token: &Addr, amount: i128) -> (r: Call<Deposit, Error>)
        requires
            old(self).wf(),
            amount > 0 ==> old(self)@.balance(org@) + amount <= i128::MAX,
            amount > 0 ==> old(self)@.token_balance(org@, token@) + amount <= i128::MAX,
        ensures
            final(self).wf(),
            final(self)@ == old(self)@.after_deposit_token(org@, token@, amount),
            amount <= 0 ==> r.signer is None && r.result == Err::<Deposit, Error>(Error::InvalidAmount),
            amount > 0 ==> {
                &&& opt_view(r.signer) == Some(org@)
                &&& r.result matches Ok(d)
                &&& d.new_balance == old(self)@.token_balance(org@, token@) + amount
                &&& incoming_if(d.transfer, Some(token@), org@, amount)
                &&& d.event.org@ == org@ && d.event.amount == amount
                &&& opt_view(d.event.token) == Some(token@)
            },
    {
        if amount <= 0 {
            return Call { signer: None, result: Err(Error::InvalidAmount) };
        }
        let transfer = Some(TokenTransfer::Incoming { token: token.duplicate(), from: org.duplicate(), amount });
        let key = (org.duplicate(), token.duplicate());
        let current: i128 = match self.token_balances.get(&key) {
            Some(b) => *b,
            None => 0,
        };
        let new_balance = current + amount;
        let aggregate = self.balance_of(org) + amount;
        let ghost before = self@;
        self.token_balances.insert(key, new_balance);
        proof {
            assert(self@.balances == before.balances);
            assert(self@.valid());
        }
        self.store_balance(org, aggregate);
        proof {
            assert(self@ =~= before.after_deposit_token(org@, token@, amount));
        }
        let event = DepositEvent { org: org.duplicate(), amount, token: Some(token.duplicate()) };
        Call { signer: Some(org.duplicate()), result: Ok(Deposit { new_balance, transfer, event }) }
    }

    /// The admin releases `amount` of `org`'s balance to `recipient`; the
    /// balance left is returned. Refused with `NotInitialized` before
    /// `initialize`; otherwise needs the admin's authorization, and is
    /// refused with `InvalidAmount` unless `amount` is positive and with
    /// `InsufficientBalance` when the balance is below `amount`. When a
    /// default token is set, pays `amount` of it to `recipient`.
    pub fn withdraw(&mut self, org: &Addr, amount: i128, recipient: &Addr) -> (r: Call<Withdrawal, Error>)
        requires
            old(self).wf(),
        ensures
            final(self).wf(),
            final(self)@ == old(self)@.after_withdraw(org@, amount),
            opt_view(r.signer) == old(self)@.admin,
            old(self)@.admin is None ==> r.result == Err::<Withdrawal, Error>(Error::NotInitialized),
            old(self)@.admin is Some && amount <= 0 ==> r.result == Err::<Withdrawal, Error>(Error::InvalidAmount),
            old(self)@.admin is Some && amount > 0 && old(self)@.balance(org@) < amount
                ==> r.result == Err::<Withdrawal, Error>(Error::InsufficientBalance),
            old(self)@.withdraw_ok(org@, amount) ==> {
                &&& r.result matches Ok(w)
                &&& w.new_balance == old(self)@.balance(org@) - amount
                &&& outgoing_if(w.transfer, old(self)@.default_token, recipient@, amount)
                &&& w.event.org@ == org@ && w.event.recipient@ == recipient@
                &&& w.event.amount == amount
                &&& opt_view(w.event.token) == old(self)@.default_token
            },
    {
        let signer = duplicate_opt(&self.admin);
        if signer.is_none() {
            return Call { signer, result: Err(Error::NotInitialized) };
        }
        if amount <= 0 {
            return Call { signer, result: Err(Error::InvalidAmount) };
        }
        let balance = self.balance_of(org);
        if balance < amount {
            return Call { signer, result: Err(Error::InsufficientBalance) };
        }
        let transfer = outgoing_transfer(&self.default_token, recipient, amount);
        let new_balance = balance - amount;
        self.store_balance(org, new_balance);
        let event = WithdrawEvent {
            org: org.duplicate(),
            recipient: recipient.duplicate(),
            amount,
            token: duplicate_opt(&self.default_token),
        };
        Call { signer, result: Ok(Withdrawal { new_balance, transfer, event }) }
    }

    /// The admin records `claim_contract` as the contract whose claims
    /// `disburse` pays. Refused with `NotInitialized` before `initialize`;
    /// otherwise needs the admin's authorization.
    pub fn set_claim_contract(&mut self, claim_contract: Addr) -> (r: Call<(), Error>)
        requires
            old(self).wf(),
        ensures
            final(self).wf(),
            final(self)@ == old(self)@.after_set_claim_contract(claim_contract@),
            opt_view(r.signer) == old(self)@.admin,
            r.result is Err <==> old(self)@.admin is None,
            r.result matches Err(e) ==> e == Error::NotInitialized,
    {
        let signer = duplicate_opt(&self.admin);
        if signer.is_none() {
            return Call { signer, result: Err(Error::NotInitialized) };
        }
        self.claim_contract = Some(claim_contract);
        Call { signer, result: Ok(()) }
    }

    /// The claim contract that `disburse` answers to, if one is recorded.
    pub fn get_claim_contract(&self) -> (c: Option<Addr>)
        ensures
            opt_view(c) == self@.claim_contract,
    {
        duplicate_opt(&self.claim_contract)
    }

    /// Pays `amount` of `org`'s balance to `recipient`, a verified claimant,
    /// in `token` or else in the default token. Refused with
    /// `NotInitialized` before `initialize`; otherwise needs the
    /// authorization of the recorded claim contract, or of the admin while
    /// none is recorded, and is refused with `InvalidAmount` unless
    /// `amount` is positive and with `InsufficientBalance` when the balance
    /// is below `amount`.
    pub fn disburse(&mut self, org: &Addr, recipient: &Addr, amount: i128, token: Option<Addr>) -> (r: Call<Disbursement, Error>)
        requires
            old(self).wf(),
        ensures
            final(self).wf(),
            final(self)@ == old(self)@.after_disburse(org@, amount),
            opt_view(r.signer) == old(self)@.disburse_signer(),
            old(self)@.admin is None ==> r.result == Err::<Disbursement, Error>(Error::NotInitialized),
            old(self)@.admin is Some && amount <= 0 ==> r.result == Err::<Disbursement, Error>(Error::InvalidAmount),
            old(self)@.admin is Some && amount > 0 && old(self)@.balance(org@) < amount
                ==> r.result == Err::<Disbursement, Error>(Error::InsufficientBalance),
            old(self)@.disburse_ok(org@, amount) ==> {
                let paid_in = if token is Some { opt_view(token) } else { old(self)@.default_token };
                &&& r.result matches Ok(d)
                &&& outgoing_if(d.transfer, paid_in, recipient@, amount)
                &&& d.event.org@ == org@ && d.event.recipient@ == recipient@
                &&& d.event.amount == amount
                &&& opt_view(d.event.token) == paid_in
            },
    {
        if self.admin.is_none() {
            return Call { signer: None, result: Err(Error::NotInitialized) };
        }
        let signer = match &self.claim_contract {
            Some(c) => Some(c.duplicate()),
            None => duplicate_opt(&self.admin),
        };
        if amount <= 0 {
            return Call { signer, result: Err(Error::InvalidAmount) };
        }
        let balance = self.balance_of(org);
        if balance < amount {
            return Call { signer, result: Err(Error::InsufficientBalance) };
        }
        let token_to_use = match token {
            Some(t) => Some(t),
            None => duplicate_opt(&self.default_token),
        };
        let transfer = outgoing_transfer(&token_to_use, recipient, amount);
        let new_balance = balance - amount;
        self.store_balance(org, new_balance);
        let event = DisbursedEvent { org: org.duplicate(), recipient: recipient.duplicate(), amount, token: token_to_use };
        Call { signer, result: Ok(Disbursement { transfer, event }) }
    }

    /// The admin credits `amount` of yield to `org`'s balance, which is
    /// returned. Refused with `NotInitialized` before `initialize`;
    /// otherwise needs the admin's authorization, and is refused with
    /// `InvalidAmount` unless `amount` is positive.
    pub fn allocate_yield(&mut self, org: &Addr, amount: i128) -> (r: Call<YieldAllocation, Error>)
        requires
            old(self).wf(),
            old(self)@.admin is Some && amount > 0 ==> old(self)@.balance(org@) + amount <= i128::MAX,
        ensures
            final(self).wf(),
            final(self)@ == old(self)@.after_allocate_yield(org@, amount),
            opt_view(r.signer) == old(self)@.admin,
            old(self)@.admin is None ==> r.result == Err::<YieldAllocation, Error>(Error::NotInitialized),
            old(self)@.admin is Some && amount <= 0 ==> r.result == Err::<YieldAllocation, Error>(Error::InvalidAmount),
            old(self)@.admin is Some && amount > 0 ==> {
                &&& r.result matches Ok(y)
                &&& y.new_balance == old(self)@.balance(org@) + amount
                &&& y.event.org@ == org@ && y.event.amount == amount
            },
    {
        let signer = duplicate_opt(&self.admin);
        if signer.is_none() {
            return Call { signer, result: Err(Error::NotInitialized) };
        }
        if amount <= 0 {
            return Call { signer, result: Err(Error::InvalidAmount) };
        }
        let new_balance = self.balance_of(org) + amount;
        self.store_balance(org, new_balance);
        let event = YieldAllocatedEvent { org: org.duplicate(), amount };
        Call { signer, result: Ok(YieldAllocation { new_balance, event }) }
    }

    /// The recorded admin, if any.
    pub fn admin(&self) -> (a: Option<Addr>)
        ensures
            opt_view(a) == self@.admin,
    {
        duplicate_opt(&self.admin)
    }

    /// Loads a stored configuration: the admin, the default token and the
    /// claim contract.
    pub fn restore_config(&mut self, admin: Option<Addr>, default_token: Option<Addr>, claim_contract: Option<Addr>)
        requires
            old(self).wf(),
        ensures
            final(self).wf(),
            final(self)@ == (TreasuryState {
                admin: opt_view(admin),
                default_token: opt_view(default_token),
                claim_contract: opt_view(claim_contract),
                ..old(self)@
            }),
    {
        self.admin = admin;
        self.default_token = default_token;
        self.claim_contract = claim_contract;
    }

    /// Loads a stored aggregate balance of `org`.
    pub fn restore_balance(&mut self, org: &Addr, balance: i128)
        requires
            old(self).wf(),
            balance >= 0,
        ensures
            final(self).wf(),
            final(self)@ == old(self)@.set_balance(org@, balance as int),
    {
        self.store_balance(org, balance);
    }

    /// Loads a stored balance of `org` in `token`.
    pub fn restore_token_balance(&mut self, org: &Addr, token: &Addr, balance: i128)
        requires
            old(self).wf(),
            balance >= 0,
        ensures
            final(self).wf(),
            final(self)@ == (TreasuryState {
                token_balances: old(self)@.token_balances.insert((org@, token@), balance),
                ..old(self)@
            }),
    {
        self.token_balances.insert((org.duplicate(), token.duplicate()), balance);
    }

    /// The aggregate balance of `org`; zero if it never deposited.
    pub fn balance(&self, org: &Addr) -> (b: i128)
        requires
            self.wf(),
        ensures
            b == self@.balance(org@),
            b >= 0,
    {
        self.balance_of(org)
    }

    /// The balance of `org` in `token` from `deposit_token`; zero if none.
    pub fn token_balance(&self, org: &Addr, token: &Addr) -> (b: i128)
        requires
            self.wf(),
        ensures
            b == self@.token_balance(org@, token@),
            b >= 0,
    {
        let key = (org.duplicate(), token.duplicate());
        match self.token_balances.get(&key) {
            Some(b) => {
                assert(self@.token_balances.contains_key((org@, token@)));
                *b
            },
            None => 0,
        }
    }
}

} // verus!

verus! {

/// No treasury operation leaves a balance negative: from a state with no
/// negative balance, every operation reaches one with none.
pub proof fn lemma_operations_keep_balances_nonnegative(
    s: TreasuryState,
    org: Seq<u8>,
    token: Seq<u8>,
    admin: Seq<u8>,
    default_token: Option<Seq<u8>>,
    amount: i128,
)
    requires
        s.valid(),
        amount > 0 ==> s.balance(org) + amount <= i128::MAX,
        amount > 0 ==> s.token_balance(org, token) + amount <= i128::MAX,
    ensures
        s.after_initialize(admin, default_token).valid(),
        s.after_set_token(token).valid(),
        s.after_set_claim_contract(token).valid(),
        s.after_deposit(org, amount).valid(),
        s.after_deposit_token(org, token, amount).valid(),
        s.after_withdraw(org, amount).valid(),
        s.after_disburse(org, amount).valid(),
        s.after_allocate_yield(org, amount).valid(),
{
}

/// Once recorded, the admin never changes: `initialize` is refused and
/// every other operation keeps it.
pub proof fn lemma_admin_is_permanent(
    s: TreasuryState,
    org: Seq<u8>,
    token: Seq<u8>,
    admin: Seq<u8>,
    default_token: Option<Seq<u8>>,
    amount: i128,
)
    requires
        s.admin is Some,
    ensures
        s.after_initialize(admin, default_token) == s,
        s.after_set_token(token).admin == s.admin,
        s.after_set_claim_contract(token).admin == s.admin,
        s.after_deposit(org, amount).admin == s.admin,
        s.after_deposit_token(org, token, amount).admin == s.admin,
        s.after_withdraw(org, amount).admin == s.admin,
        s.after_disburse(org, amount).admin == s.admin,
        s.after_allocate_yield(org, amount).admin == s.admin,
{
}

/// An operation on one organization's balance leaves every other
/// organization's balance as it was.
pub proof fn lemma_operations_touch_only_their_org(
    s: TreasuryState,
    org: Seq<u8>,
    other: Seq<u8>,
    token: Seq<u8>,
    amount: i128,
)
    requires
        org != other,
    ensures
        s.after_deposit(org, amount).balance(other) == s.balance(other),
        s.after_deposit_token(org, token, amount).balance(other) == s.balance(other),
        s.after_withdraw(org, amount).balance(other) == s.balance(other),
        s.after_disburse(org, amount).balance(other) == s.balance(other),
        s.after_allocate_yield(org, amount).balance(other) == s.balance(other),
{
}

/// Deposits add up: two deposits of `a` and `b` leave the balance grown by
/// `a + b`.
pub proof fn lemma_deposits_accumulate(s: TreasuryState, org: Seq<u8>, a: i128, b: i128)
    requires
        s.valid(),
        a > 0,
        b > 0,
        s.balance(org) + a + b <= i128::MAX,
    ensures
        s.after_deposit(org, a).after_deposit(org, b).balance(org) == s.balance(org) + a + b,
{
}

/// A withdrawal of what was just deposited goes through and restores every
/// balance, once the treasury is initialized.
pub proof fn lemma_withdraw_undoes_deposit(s: TreasuryState, org: Seq<u8>, amount: i128)
    requires
        s.valid(),
        s.admin is Some,
        amount > 0,
        s.balance(org) + amount <= i128::MAX,
    ensures
        s.after_deposit(org, amount).withdraw_ok(org, amount),
        forall|x: Seq<u8>| #[trigger] s.after_deposit(org, amount).after_withdraw(org, amount).balance(x) == s.balance(x),
{
}

/// A disbursement of what was just deposited goes through and restores
/// every balance, once the treasury is initialized.
pub proof fn lemma_disburse_undoes_deposit(s: TreasuryState, org: Seq<u8>, amount: i128)
    requires
        s.valid(),
        s.admin is Some,
        amount > 0,
        s.balance(org) + amount <= i128::MAX,
    ensures
        s.after_deposit(org, amount).disburse_ok(org, amount),
        forall|x: Seq<u8>| #[trigger] s.after_deposit(org, amount).after_disburse(org, amount).balance(x) == s.balance(x),
{
}

/// A withdrawal or disbursement that goes through takes exactly `amount`
/// from the organization's balance and never leaves it negative; one that
/// is refused changes nothing.
pub proof fn lemma_payouts_never_overdraw(s: TreasuryState, org: Seq<u8>, amount: i128)
    requires
        s.valid(),
    ensures
        s.withdraw_ok(org, amount) ==> s.after_withdraw(org, amount).balance(org) == s.balance(org) - amount,
        s.disburse_ok(org, amount) ==> s.after_disburse(org, amount).balance(org) == s.balance(org) - amount,
        s.after_withdraw(org, amount).balance(org) >= 0,
        s.after_disburse(org, amount).balance(org) >= 0,
        !s.withdraw_ok(org, amount) ==> s.after_withdraw(org, amount) == s,
        !s.disburse_ok(org, amount) ==> s.after_disburse(org, amount) == s,
{
}

/// A treasury that holds its invariant has no negative balance.
pub proof fn lemma_contract_balances_nonnegative(t: TreasuryContract)
    requires
        t.wf(),
    ensures
        t@.valid(),
{
}

/// One call changes the aggregate balance of `org` by exactly its
/// `balance_change` and the balance of `org` in `token` by exactly its
/// `token_balance_change`, and keeps every balance non-negative.
pub proof fn lemma_call_changes_balances_by_its_amounts(s: TreasuryState, op: TreasuryOp, org: Seq<u8>, token: Seq<u8>)
    requires
        s.valid(),
        s.admits(op),
    ensures
        s.apply(op).valid(),
        s.apply(op).balance(org) == s.balance(org) + s.balance_change(op, org),
        s.apply(op).token_balance(org, token) == s.token_balance(org, token) + s.token_balance_change(op, org, token),
{
}

/// The aggregate balance of `org` after calls `ops` is its balance before
/// plus the amounts of the successful deposits, token deposits and yield
/// allocations to `org`, minus the amounts of the successful withdrawals
/// and disbursements from `org`.
pub proof fn lemma_balance_is_running_sum(s: TreasuryState, ops: Seq<TreasuryOp>, org: Seq<u8>)
    requires
        s.valid(),
        s.admits_all(ops),
    ensures
        s.run(ops).valid(),
        s.run(ops).balance(org) == s.balance(org) + s.net_balance_change(ops, org),
    decreases ops.len(),
{
    if ops.len() > 0 {
        lemma_call_changes_balances_by_its_amounts(s, ops[0], org, org);
        lemma_balance_is_running_sum(s.apply(ops[0]), ops.drop_first(), org);
    }
}

/// The balance of `org` in `token` after calls `ops` is its balance before
/// plus the amounts of the successful `deposit_token` calls of `org` in
/// `token`; no other call changes it.
pub proof fn lemma_token_balance_is_running_sum(s: TreasuryState, ops: Seq<TreasuryOp>, org: Seq<u8>, token: Seq<u8>)
    requires
        s.valid(),
        s.admits_all(ops),
    ensures
        s.run(ops).token_balance(org, token) == s.token_balance(org, token) + s.net_token_balance_change(ops, org, token),
    decreases ops.len(),
{
    if ops.len() > 0 {
        lemma_call_changes_balances_by_its_amounts(s, ops[0], org, token);
        lemma_token_balance_is_running_sum(s.apply(ops[0]), ops.drop_first(), org, token);
    }
}

/// From a freshly deployed treasury, every balance is exactly the running
/// sum of the successful calls on it (zero when there are none).
pub proof fn lemma_fresh_balances_are_running_sums(ops: Seq<TreasuryOp>, org: Seq<u8>, token: Seq<u8>)
    requires
        TreasuryState::fresh().admits_all(ops),
    ensures
        TreasuryState::fresh().run(ops).balance(org) == TreasuryState::fresh().net_balance_change(ops, org),
        TreasuryState::fresh().run(ops).token_balance(org, token)
            == TreasuryState::fresh().net_token_balance_change(ops, org, token),
{
    lemma_balance_is_running_sum(TreasuryState::fresh(), ops, org);
    lemma_token_balance_is_running_sum(TreasuryState::fresh(), ops, org, token);
}

/// Nobody pays out of the treasury unasked: a disbursement that goes
/// through needs an authorization, that of the recorded claim contract
/// when there is one, else the admin's; and only the admin can record the
/// claim contract.
pub proof fn lemma_disburse_needs_authorization(s: TreasuryState, org: Seq<u8>, amount: i128, claim_contract: Seq<u8>)
    ensures
        s.disburse_ok(org, amount) ==> s.disburse_signer() is Some,
        s.claim_contract is Some && s.admin is Some ==> s.disburse_signer() == s.claim_contract,
        s.claim_contract is None ==> s.disburse_signer() == s.admin,
        s.after_set_claim_contract(claim_contract).claim_contract != s.claim_contract ==> s.admin is Some,
{
}

/// Tokens move by exactly what the ledger records: when a default or given
/// token is set, a deposit pulls in exactly what it adds to the
/// organization's balance, a token deposit exactly what it adds to the
/// token balance, and a withdrawal or disbursement pays out exactly what it
/// takes off the balance, to the party named.
pub proof fn lemma_transfers_match_balance_changes(
    s: TreasuryState,
    org: Seq<u8>,
    party: Seq<u8>,
    token: Seq<u8>,
    amount: i128,
    t: Option<TokenTransfer>,
)
    requires
        s.valid(),
    ensures
        amount > 0 && s.balance(org) + amount <= i128::MAX && incoming_if(t, Some(token), org, amount)
            ==> transfer_amount(t) == s.after_deposit(org, amount).balance(org) - s.balance(org),
        amount > 0 && s.balance(org) + amount <= i128::MAX && s.token_balance(org, token) + amount <= i128::MAX
            && incoming_if(t, Some(token), org, amount)
            ==> transfer_amount(t) == s.after_deposit_token(org, token, amount).token_balance(org, token)
                - s.token_balance(org, token),
        s.withdraw_ok(org, amount) && outgoing_if(t, Some(token), party, amount)
            ==> ({
                &&& transfer_amount(t) == s.balance(org) - s.after_withdraw(org, amount).balance(org)
                &&& t matches Some(TokenTransfer::Outgoing { to, .. })
                &&& to@ == party
            }),
        s.disburse_ok(org, amount) && outgoing_if(t, Some(token), party, amount)
            ==> ({
                &&& transfer_amount(t) == s.balance(org) - s.after_disburse(org, amount).balance(org)
                &&& t matches Some(TokenTransfer::Outgoing { to, .. })
                &&& to@ == party
            }),
{
}

} // verus!
