use std::collections::HashMap;

use shieldedpay::addr::Addr;
use shieldedpay::effects::TokenTransfer;
use shieldedpay::treasury::{Error, TreasuryContract};
use soroban_sdk::xdr::ToXdr;
use soroban_sdk::{Address, Env};

const ADMIN: &str = "GAAQCAIBAEAQCAIBAEAQCAIBAEAQCAIBAEAQCAIBAEAQCAIBAEAQDZ7H";
const ORG: &str = "GABAEAQCAIBAEAQCAIBAEAQCAIBAEAQCAIBAEAQCAIBAEAQCAIBAEJXA";
const RECIPIENT: &str = "GABQGAYDAMBQGAYDAMBQGAYDAMBQGAYDAMBQGAYDAMBQGAYDAMBQHGPC";
const CLAIMANT: &str = "GACAIBAEAQCAIBAEAQCAIBAEAQCAIBAEAQCAIBAEAQCAIBAEAQCAJJHP";
const TOKEN: &str = "CACQKBIFAUCQKBIFAUCQKBIFAUCQKBIFAUCQKBIFAUCQKBIFAUCQLC2U";
const TREASURY: &str = "CADAMBQGAYDAMBQGAYDAMBQGAYDAMBQGAYDAMBQGAYDAMBQGAYDAMSST";

fn addr(env: &Env, strkey: &str) -> Addr {
    let address = Address::from_str(env, strkey);
    Addr::from_xdr(address.to_xdr(env).iter().collect())
}

/// A token contract's balances, as the transfers that the treasury asks for
/// leave them.
struct TokenLedger {
    contract: Addr,
    balances: HashMap<Vec<u8>, i128>,
}

impl TokenLedger {
    fn new(contract: &Addr) -> TokenLedger {
        TokenLedger { contract: contract.clone(), balances: HashMap::new() }
    }

    fn mint(&mut self, to: &Addr, amount: i128) {
        *self.balances.entry(to.xdr.clone()).or_insert(0) += amount;
    }

    fn balance(&self, of: &Addr) -> i128 {
        *self.balances.get(&of.xdr).unwrap_or(&0)
    }

    fn move_tokens(&mut self, from: &Addr, to: &Addr, amount: i128) {
        assert!(self.balance(from) >= amount);
        *self.balances.entry(from.xdr.clone()).or_insert(0) -= amount;
        *self.balances.entry(to.xdr.clone()).or_insert(0) += amount;
    }

    fn apply(&mut self, token: &Addr, t: &Option<TokenTransfer>) {
        match t {
            Some(TokenTransfer::Incoming { token: tk, from, amount }) => {
                assert_eq!(tk, token);
                let contract = self.contract.clone();
                self.move_tokens(from, &contract, *amount);
            }
            Some(TokenTransfer::Outgoing { token: tk, to, amount }) => {
                assert_eq!(tk, token);
                let contract = self.contract.clone();
                self.move_tokens(&contract, to, *amount);
            }
            None => {}
        }
    }
}

fn setup(env: &Env) -> (TreasuryContract, Addr, Addr) {
    let admin = addr(env, ADMIN);
    let org = addr(env, ORG);
    let mut client = TreasuryContract::new();
    assert_eq!(client.initialize(admin.clone(), None), Ok(()));
    (client, admin, org)
}

#[test]
fn double_initialize_fails() {
    let env = Env::default();
    let (mut client, admin, _) = setup(&env);
    let res = client.initialize(admin, None);
    assert_eq!(res, Err(Error::AlreadyInitialized));
}

#[test]
fn deposit_increases_balance() {
    let env = Env::default();
    let (mut client, _, org) = setup(&env);

    assert_eq!(client.balance(&org), 0);
    let new_bal = client.deposit(&org, 1_000).result.unwrap().new_balance;
    assert_eq!(new_bal, 1_000);
    assert_eq!(client.balance(&org), 1_000);

    let new_bal2 = client.deposit(&org, 500).result.unwrap().new_balance;
    assert_eq!(new_bal2, 1_500);
    assert_eq!(client.balance(&org), 1_500);
}

#[test]
fn withdraw_decreases_balance() {
    let env = Env::default();
    let (mut client, _admin, org) = setup(&env);
    let recipient = addr(&env, RECIPIENT);

    client.deposit(&org, 2_000).result.unwrap();
    let remaining = client.withdraw(&org, 500, &recipient).result.unwrap().new_balance;
    assert_eq!(remaining, 1_500);
    assert_eq!(client.balance(&org), 1_500);
}

#[test]
fn withdraw_more_than_balance_fails() {
    let env = Env::default();
    let (mut client, _, org) = setup(&env);
    let recipient = addr(&env, RECIPIENT);

    client.deposit(&org, 100).result.unwrap();
    let res = client.withdraw(&org, 200, &recipient).result.err();
    assert_eq!(res, Some(Error::InsufficientBalance));
}

#[test]
fn allocate_yield_credits_balance() {
    let env = Env::default();
    let (mut client, _, org) = setup(&env);

    client.deposit(&org, 10_000).result.unwrap();
    let new_bal = client.allocate_yield(&org, 350).result.unwrap().new_balance;
    assert_eq!(new_bal, 10_350);
    assert_eq!(client.balance(&org), 10_350);
}

#[test]
fn test_sac_token_deposit_and_withdrawal_transitions() {
    let env = Env::default();

    let token_address = addr(&env, TOKEN);
    let contract_id = addr(&env, TREASURY);
    let mut token_client = TokenLedger::new(&contract_id);

    let mut client = TreasuryContract::new();
    let admin = addr(&env, ADMIN);
    let org = addr(&env, ORG);
    let recipient = addr(&env, RECIPIENT);

    client.initialize(admin.clone(), Some(token_address.clone())).unwrap();

    // Mint initial tokens to org
    token_client.mint(&org, 10_000);
    assert_eq!(token_client.balance(&org), 10_000);
    assert_eq!(token_client.balance(&contract_id), 0);

    // Deposit moves real SAC tokens from org to contract
    let call = client.deposit(&org, 3_000);
    assert_eq!(call.signer, Some(org.clone()));
    let deposit = call.result.unwrap();
    token_client.apply(&token_address, &deposit.transfer);
    assert_eq!(deposit.new_balance, 3_000);
    assert_eq!(token_client.balance(&org), 7_000);
    assert_eq!(token_client.balance(&contract_id), 3_000);
    assert_eq!(client.balance(&org), 3_000);

    // Withdraw moves SAC tokens from contract to recipient
    let call = client.withdraw(&org, 1_200, &recipient);
    assert_eq!(call.signer, Some(admin.clone()));
    let withdrawal = call.result.unwrap();
    token_client.apply(&token_address, &withdrawal.transfer);
    assert_eq!(withdrawal.new_balance, 1_800);
    assert_eq!(token_client.balance(&contract_id), 1_800);
    assert_eq!(token_client.balance(&recipient), 1_200);

    // Disburse moves SAC tokens from contract to claimant
    let claimant = addr(&env, CLAIMANT);
    let disbursement = client.disburse(&org, &claimant, 800, None).result.unwrap();
    token_client.apply(&token_address, &disbursement.transfer);
    assert_eq!(token_client.balance(&contract_id), 1_000);
    assert_eq!(token_client.balance(&claimant), 800);
}

#[test]
fn operations_before_initialize_are_refused() {
    let env = Env::default();
    let org = addr(&env, ORG);
    let recipient = addr(&env, RECIPIENT);
    let mut client = TreasuryContract::new();
    let set = client.set_token(addr(&env, TOKEN));
    assert_eq!(set.signer, None);
    assert_eq!(set.result, Err(Error::NotInitialized));
    assert_eq!(client.withdraw(&org, 10, &recipient).result.err(), Some(Error::NotInitialized));
    assert_eq!(client.allocate_yield(&org, 10).result.err(), Some(Error::NotInitialized));
    assert_eq!(client.get_token(), None);
}

#[test]
fn non_positive_amounts_are_refused() {
    let env = Env::default();
    let (mut client, admin, org) = setup(&env);
    let recipient = addr(&env, RECIPIENT);
    let token = addr(&env, TOKEN);

    let dep = client.deposit(&org, 0);
    assert_eq!(dep.signer, None);
    assert_eq!(dep.result.err(), Some(Error::InvalidAmount));
    assert_eq!(client.deposit_token(&org, &token, -5).result.err(), Some(Error::InvalidAmount));
    let wd = client.withdraw(&org, 0, &recipient);
    assert_eq!(wd.signer, Some(admin.clone()));
    assert_eq!(wd.result.err(), Some(Error::InvalidAmount));
    assert_eq!(client.disburse(&org, &recipient, -1, None).result.err(), Some(Error::InvalidAmount));
    assert_eq!(client.allocate_yield(&org, 0).result.err(), Some(Error::InvalidAmount));
    assert_eq!(client.balance(&org), 0);
}

#[test]
fn disburse_more_than_balance_fails_and_changes_nothing() {
    let env = Env::default();
    let (mut client, _, org) = setup(&env);
    let recipient = addr(&env, RECIPIENT);
    client.deposit(&org, 300).result.unwrap();
    assert_eq!(client.disburse(&org, &recipient, 301, None).result.err(), Some(Error::InsufficientBalance));
    assert_eq!(client.balance(&org), 300);
}

#[test]
fn deposit_token_tracks_token_and_aggregate_balances() {
    let env = Env::default();
    let (mut client, _, org) = setup(&env);
    let token = addr(&env, TOKEN);

    let call = client.deposit_token(&org, &token, 700);
    assert_eq!(call.signer, Some(org.clone()));
    let dep = call.result.unwrap();
    assert_eq!(dep.new_balance, 700);
    assert_eq!(
        dep.transfer,
        Some(TokenTransfer::Incoming { token: token.clone(), from: org.clone(), amount: 700 })
    );
    assert_eq!(dep.event.token, Some(token.clone()));
    client.deposit(&org, 50).result.unwrap();
    let again = client.deposit_token(&org, &token, 300).result.unwrap();
    assert_eq!(again.new_balance, 1_000);
    assert_eq!(client.token_balance(&org, &token), 1_000);
    assert_eq!(client.balance(&org), 1_050);
    assert_eq!(client.token_balance(&org, &addr(&env, ADMIN)), 0);
}

#[test]
fn set_token_changes_default_token_and_payouts() {
    let env = Env::default();
    let (mut client, admin, org) = setup(&env);
    let token = addr(&env, TOKEN);
    let recipient = addr(&env, RECIPIENT);

    let dep = client.deposit(&org, 100).result.unwrap();
    assert_eq!(dep.transfer, None);
    let set = client.set_token(token.clone());
    assert_eq!(set.signer, Some(admin));
    assert_eq!(set.result, Ok(()));
    assert_eq!(client.get_token(), Some(token.clone()));
    let wd = client.withdraw(&org, 40, &recipient).result.unwrap();
    assert_eq!(
        wd.transfer,
        Some(TokenTransfer::Outgoing { token: token.clone(), to: recipient.clone(), amount: 40 })
    );
    assert_eq!(wd.event.amount, 40);
    assert_eq!(wd.event.token, Some(token));
}

#[test]
fn disburse_prefers_the_given_token() {
    let env = Env::default();
    let admin = addr(&env, ADMIN);
    let org = addr(&env, ORG);
    let claimant = addr(&env, CLAIMANT);
    let default_token = addr(&env, TOKEN);
    let other_token = addr(&env, TREASURY);
    let mut client = TreasuryContract::new();
    client.initialize(admin, Some(default_token.clone())).unwrap();
    client.deposit(&org, 1_000).result.unwrap();

    let d = client.disburse(&org, &claimant, 10, Some(other_token.clone())).result.unwrap();
    assert_eq!(
        d.transfer,
        Some(TokenTransfer::Outgoing { token: other_token.clone(), to: claimant.clone(), amount: 10 })
    );
    let d2 = client.disburse(&org, &claimant, 20, None).result.unwrap();
    assert_eq!(d2.event.token, Some(default_token));
    assert_eq!(client.balance(&org), 970);
}

#[test]
fn withdraw_after_deposit_restores_balance() {
    let env = Env::default();
    let (mut client, _, org) = setup(&env);
    let recipient = addr(&env, RECIPIENT);
    client.deposit(&org, 250).result.unwrap();
    client.deposit(&org, 400).result.unwrap();
    client.withdraw(&org, 400, &recipient).result.unwrap();
    assert_eq!(client.balance(&org), 250);
    client.disburse(&org, &recipient, 250, None).result.unwrap();
    assert_eq!(client.balance(&org), 0);
    assert_eq!(client.balance(&recipient), 0);
}

#[test]
fn treasury_error_codes_match_contract_errors() {
    assert_eq!(Error::AlreadyInitialized.code(), 1);
    assert_eq!(Error::NotInitialized.code(), 2);
    assert_eq!(Error::InsufficientBalance.code(), 3);
    assert_eq!(Error::InvalidAmount.code(), 4);
}

#[test]
fn operations_on_one_org_leave_others_alone() {
    let env = Env::default();
    let (mut client, _, org) = setup(&env);
    let other = addr(&env, CLAIMANT);
    let recipient = addr(&env, RECIPIENT);
    client.deposit(&other, 77).result.unwrap();
    client.deposit(&org, 500).result.unwrap();
    client.withdraw(&org, 100, &recipient).result.unwrap();
    client.disburse(&org, &recipient, 100, None).result.unwrap();
    client.allocate_yield(&org, 5).result.unwrap();
    client.deposit_token(&org, &addr(&env, TOKEN), 9).result.unwrap();
    assert_eq!(client.balance(&org), 314);
    assert_eq!(client.balance(&other), 77);
}

#[test]
fn admin_stays_the_first_one_recorded() {
    let env = Env::default();
    let (mut client, admin, org) = setup(&env);
    assert_eq!(client.initialize(org.clone(), Some(addr(&env, TOKEN))), Err(Error::AlreadyInitialized));
    assert_eq!(client.admin(), Some(admin.clone()));
    assert_eq!(client.get_token(), None);
    client.set_token(addr(&env, TOKEN)).result.unwrap();
    assert_eq!(client.allocate_yield(&org, 1).signer, Some(admin));
}

#[test]
fn disburse_needs_the_claim_contract_or_the_admin() {
    let env = Env::default();
    let org = addr(&env, ORG);
    let recipient = addr(&env, RECIPIENT);
    let claim_contract = addr(&env, TREASURY);
    let mut client = TreasuryContract::new();

    let early = client.disburse(&org, &recipient, 10, None);
    assert_eq!(early.signer, None);
    assert_eq!(early.result.err(), Some(Error::NotInitialized));
    assert_eq!(client.set_claim_contract(claim_contract.clone()).result, Err(Error::NotInitialized));

    let admin = addr(&env, ADMIN);
    client.initialize(admin.clone(), None).unwrap();
    client.deposit(&org, 100).result.unwrap();
    let by_admin = client.disburse(&org, &recipient, 10, None);
    assert_eq!(by_admin.signer, Some(admin.clone()));
    assert!(by_admin.result.is_ok());

    let set = client.set_claim_contract(claim_contract.clone());
    assert_eq!(set.signer, Some(admin));
    assert_eq!(set.result, Ok(()));
    assert_eq!(client.get_claim_contract(), Some(claim_contract.clone()));
    let by_claims = client.disburse(&org, &recipient, 20, None);
    assert_eq!(by_claims.signer, Some(claim_contract.clone()));
    assert!(by_claims.result.is_ok());
    let refused = client.disburse(&org, &recipient, 1_000, None);
    assert_eq!(refused.signer, Some(claim_contract));
    assert_eq!(refused.result.err(), Some(Error::InsufficientBalance));
    assert_eq!(client.balance(&org), 70);
}
