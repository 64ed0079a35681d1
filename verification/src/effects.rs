//! What a contract call asks of the host besides its own state: an
//! authorization and a token transfer.

use vstd::prelude::*;
use crate::addr::{Addr, opt_view};

verus! {

/// The outcome of a call that may need an address's authorization.
///
/// When `signer` is `Some(a)`, the call stands only if `a` has authorized
/// it; without that authorization the host aborts the whole call, whatever
/// `result` says. When `signer` is `None`, no authorization was asked
/// before `result` was reached.
#[derive(Debug, PartialEq, Eq)]
pub struct Call<T, E> {
    pub signer: Option<Addr>,
    pub result: Result<T, E>,
}

/// A transfer of a Stellar token through its token contract.
#[derive(Clone, Debug, PartialEq, Eq)]
pub enum TokenTransfer {
    /// `amount` of `token` moves from `from` to the calling contract.
    Incoming { token: Addr, from: Addr, amount: i128 },
    /// `amount` of `token` moves from the calling contract to `to`.
    Outgoing { token: Addr, to: Addr, amount: i128 },
}

/// How many tokens `t` moves; none when there is no transfer.
pub open spec fn transfer_amount(t: Option<TokenTransfer>) -> int {
    match t {
        Some(TokenTransfer::Incoming { amount, .. }) => amount as int,
        Some(TokenTransfer::Outgoing { amount, .. }) => amount as int,
        None => 0,
    }
}

/// `t` is, when `token` is `Some`, an incoming transfer of `amount` of that
/// token from `from`; and no transfer when `token` is `None`.
pub open spec fn incoming_if(t: Option<TokenTransfer>, token: Option<Seq<u8>>, from: Seq<u8>, amount: i128) -> bool {
    match token {
        Some(tok) => t matches Some(TokenTransfer::Incoming { token: tk, from: f, amount: a })
            && tk@ == tok && f@ == from && a == amount,
        None => t is None,
    }
}

/// `t` is, when `token` is `Some`, an outgoing transfer of `amount` of that
/// token to `to`; and no transfer when `token` is `None`.
pub open spec fn outgoing_if(t: Option<TokenTransfer>, token: Option<Seq<u8>>, to: Seq<u8>, amount: i128) -> bool {
    match token {
        Some(tok) => t matches Some(TokenTransfer::Outgoing { token: tk, to: r, amount: a })
            && tk@ == tok && r@ == to && a == amount,
        None => t is None,
    }
}

/// The incoming transfer that `token`, if set, calls for.
pub fn incoming_transfer(token: &Option<Addr>, from: &Addr, amount: i128) -> (t: Option<TokenTransfer>)
    ensures
        incoming_if(t, opt_view(*token), from@, amount),
{
    match token {
        Some(tk) => Some(TokenTransfer::Incoming { token: tk.duplicate(), from: from.duplicate(), amount }),
        None => None,
    }
}

/// The outgoing transfer that `token`, if set, calls for.
pub fn outgoing_transfer(token: &Option<Addr>, to: &Addr, amount: i128) -> (t: Option<TokenTransfer>)
    ensures
        outgoing_if(t, opt_view(*token), to@, amount),
{
    match token {
        Some(tk) => Some(TokenTransfer::Outgoing { token: tk.duplicate(), to: to.duplicate(), amount }),
        None => None,
    }
}

} // verus!
