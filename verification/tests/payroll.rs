use shieldedpay::addr::Addr;
use shieldedpay::payroll::{Error, PayrollContract, DEFAULT_EXPIRATION_WINDOW};
use soroban_sdk::xdr::ToXdr;
use soroban_sdk::{Address, Bytes, Env};

const ORG: &str = "GABAEAQCAIBAEAQCAIBAEAQCAIBAEAQCAIBAEAQCAIBAEAQCAIBAEJXA";
const OTHER_ORG: &str = "GAEAQCAIBAEAQCAIBAEAQCAIBAEAQCAIBAEAQCAIBAEAQCAIBAEARIHQ";
const USDC: &str = "CACQKBIFAUCQKBIFAUCQKBIFAUCQKBIFAUCQKBIFAUCQKBIFAUCQLC2U";
const EURC: &str = "CADAMBQGAYDAMBQGAYDAMBQGAYDAMBQGAYDAMBQGAYDAMBQGAYDAMSST";
const XLM: &str = "CADQOBYHA4DQOBYHA4DQOBYHA4DQOBYHA4DQOBYHA4DQOBYHA4DQP5KR";
const ALICE: &str = "GAEQSCIJBEEQSCIJBEEQSCIJBEEQSCIJBEEQSCIJBEEQSCIJBEEQSH7S";
const BOB: &str = "GAFAUCQKBIFAUCQKBIFAUCQKBIFAUCQKBIFAUCQKBIFAUCQKBIFAVXXV";
const CHARLIE: &str = "GAFQWCYLBMFQWCYLBMFQWCYLBMFQWCYLBMFQWCYLBMFQWCYLBMFQWYPX";

fn addr(env: &Env, strkey: &str) -> Addr {
    let address = Address::from_str(env, strkey);
    Addr::from_xdr(address.to_xdr(env).iter().collect())
}

fn leaf_hash(env: &Env, data: &str) -> [u8; 32] {
    let mut buf = Bytes::new(env);
    buf.push_back(0x00);
    let bytes = Bytes::from_slice(env, data.as_bytes());
    buf.append(&bytes);
    env.crypto().sha256(&buf).to_array()
}

fn pair_hash(env: &Env, a: &[u8; 32], b: &[u8; 32]) -> [u8; 32] {
    let mut buf = Bytes::new(env);
    buf.push_back(0x01);
    buf.append(&Bytes::from_array(env, a));
    buf.append(&Bytes::from_array(env, b));
    env.crypto().sha256(&buf).to_array()
}

fn setup(env: &Env) -> (PayrollContract, Addr) {
    let org = addr(env, ORG);
    (PayrollContract::new(), org)
}

#[test]
fn recommitting_same_id_fails() {
    let env = Env::default();
    let (mut client, org) = setup(&env);

    let root = leaf_hash(&env, "dummy");
    client.commit_payroll(org.clone(), 1, root, 5, None, 0).result.unwrap();

    let res = client.commit_payroll(org.clone(), 1, root, 5, None, 0);
    assert_eq!(res.signer, Some(org));
    assert_eq!(res.result.err(), Some(Error::AlreadyCommitted));
}

#[test]
fn verify_unknown_payroll_id_returns_false() {
    let env = Env::default();
    let (client, _) = setup(&env);

    let leaf = leaf_hash(&env, "dummy");
    let proof = Vec::new();
    assert!(!client.verify_disbursement(&env, 0, 999, leaf, &proof, 0));
}

#[test]
fn commit_and_verify_valid_proof() {
    let env = Env::default();
    let (mut client, org) = setup(&env);

    let leaf_a = leaf_hash(&env, "alice:100");
    let leaf_b = leaf_hash(&env, "bob:200");
    let root = pair_hash(&env, &leaf_a, &leaf_b);

    client.commit_payroll(org, 42, root, 2, None, 0).result.unwrap();

    // Verify leaf A (index 0, sibling is B)
    let proof_a = vec![leaf_b];
    assert!(client.verify_disbursement(&env, 0, 42, leaf_a, &proof_a, 0));

    // Verify leaf B (index 1, sibling is A)
    let proof_b = vec![leaf_a];
    assert!(client.verify_disbursement(&env, 0, 42, leaf_b, &proof_b, 1));
}

#[test]
fn verify_rejects_wrong_leaf() {
    let env = Env::default();
    let (mut client, org) = setup(&env);

    let leaf_a = leaf_hash(&env, "alice:100");
    let leaf_b = leaf_hash(&env, "bob:200");
    let root = pair_hash(&env, &leaf_a, &leaf_b);

    client.commit_payroll(org, 1, root, 2, None, 0).result.unwrap();

    let wrong_leaf = leaf_hash(&env, "eve:999");
    let proof = vec![leaf_b];
    assert!(!client.verify_disbursement(&env, 0, 1, wrong_leaf, &proof, 0));
}

#[test]
fn test_multi_token_leaf_commitments() {
    let env = Env::default();
    let (mut client, org) = setup(&env);

    let usdc = addr(&env, USDC);
    let eurc = addr(&env, EURC);
    let xlm = addr(&env, XLM);

    let alice = addr(&env, ALICE);
    let bob = addr(&env, BOB);
    let charlie = addr(&env, CHARLIE);

    let salt_a = leaf_hash(&env, "salt-alice");
    let salt_b = leaf_hash(&env, "salt-bob");
    let salt_c = leaf_hash(&env, "salt-charlie");

    let leaf_a = PayrollContract::hash_disbursement_leaf(&env, &alice, 5_000, &usdc, &salt_a);
    let leaf_b = PayrollContract::hash_disbursement_leaf(&env, &bob, 4_500, &eurc, &salt_b);
    let leaf_c = PayrollContract::hash_disbursement_leaf(&env, &charlie, 10_000, &xlm, &salt_c);

    // Build 4-leaf Merkle tree (with duplicated leaf_c for balance)
    let parent_ab = pair_hash(&env, &leaf_a, &leaf_b);
    let parent_cc = pair_hash(&env, &leaf_c, &leaf_c);
    let root = pair_hash(&env, &parent_ab, &parent_cc);

    client.commit_payroll(org, 101, root, 3, None, 0).result.unwrap();

    // Verify Bob (leaf_b, index 1)
    // Level 0 sibling is leaf_a, Level 1 sibling is parent_cc
    let proof_b = vec![leaf_a, parent_cc];
    assert!(client.verify_disbursement(&env, 0, 101, leaf_b, &proof_b, 1));

    // Verify Charlie (leaf_c, index 2)
    // Level 0 sibling is leaf_c, Level 1 sibling is parent_ab
    let proof_c = vec![leaf_c, parent_ab];
    assert!(client.verify_disbursement(&env, 0, 101, leaf_c, &proof_c, 2));
}

#[test]
fn test_batch_expiration_and_reclaim() {
    let env = Env::default();
    let (mut client, org) = setup(&env);

    let now: u64 = 1_000_000;
    let expiration = 1_000_000 + 10_000;

    let leaf_a = leaf_hash(&env, "alice:100");
    let leaf_b = leaf_hash(&env, "bob:200");
    let root = pair_hash(&env, &leaf_a, &leaf_b);

    client.commit_payroll(org.clone(), 77, root, 2, Some(expiration), now).result.unwrap();

    let proof = vec![leaf_b];

    // Valid before expiration
    assert!(client.verify_disbursement(&env, now, 77, leaf_a, &proof, 0));

    // Cannot reclaim before expiration
    let err_early = client.reclaim_unclaimed_funds(&org, 77, now).result.err();
    assert_eq!(err_early, Some(Error::BatchNotExpired));

    // Advance ledger beyond expiration
    let later = expiration + 1;

    // Claim fails after expiration
    assert!(!client.verify_disbursement(&env, later, 77, leaf_a, &proof, 0));

    // Org admin successfully reclaims
    client.reclaim_unclaimed_funds(&org, 77, later).result.unwrap();

    // Reclaiming again fails
    let err_again = client.reclaim_unclaimed_funds(&org, 77, later).result.err();
    assert_eq!(err_again, Some(Error::AlreadyReclaimed));
}

#[test]
fn test_odd_length_tree_and_invalid_path_rejection() {
    let env = Env::default();
    let (mut client, org) = setup(&env);

    let leaf_1 = leaf_hash(&env, "1");
    let leaf_2 = leaf_hash(&env, "2");
    let leaf_3 = leaf_hash(&env, "3");

    // 3 leaves: leaf_1 + leaf_2 -> parent_12, leaf_3 duplicated -> parent_33
    let parent_12 = pair_hash(&env, &leaf_1, &leaf_2);
    let parent_33 = pair_hash(&env, &leaf_3, &leaf_3);
    let root = pair_hash(&env, &parent_12, &parent_33);

    client.commit_payroll(org, 88, root, 3, None, 0).result.unwrap();

    // Inverted sibling order should fail
    let inverted_proof = vec![parent_33, leaf_2];
    assert!(!client.verify_disbursement(&env, 0, 88, leaf_1, &inverted_proof, 0));

    // Zero-hash salt / empty proof should fail
    let empty_proof = Vec::new();
    assert!(!client.verify_disbursement(&env, 0, 88, leaf_1, &empty_proof, 0));

    // The correct path verifies
    let proof = vec![leaf_2, parent_33];
    assert!(client.verify_disbursement(&env, 0, 88, leaf_1, &proof, 0));
}

#[test]
fn empty_batch_is_refused_without_authorization() {
    let env = Env::default();
    let (mut client, org) = setup(&env);
    let res = client.commit_payroll(org, 5, leaf_hash(&env, "r"), 0, None, 0);
    assert_eq!(res.signer, None);
    assert_eq!(res.result.err(), Some(Error::EmptyBatch));
    assert_eq!(client.get_commitment(5).err(), Some(Error::NotFound));
}

#[test]
fn commitment_records_default_or_given_expiration() {
    let env = Env::default();
    let (mut client, org) = setup(&env);
    let root = leaf_hash(&env, "root");

    let ev = client.commit_payroll(org.clone(), 1, root, 4, None, 500).result.unwrap();
    assert_eq!(ev.expiration_timestamp, 500 + 90 * 86_400);
    assert_eq!(DEFAULT_EXPIRATION_WINDOW, 7_776_000);
    let ev0 = client.commit_payroll(org.clone(), 2, root, 4, Some(0), 500).result.unwrap();
    assert_eq!(ev0.expiration_timestamp, 500 + DEFAULT_EXPIRATION_WINDOW);
    let ev9 = client.commit_payroll(org.clone(), 3, root, 4, Some(9), 500).result.unwrap();
    assert_eq!(ev9.expiration_timestamp, 9);
    assert_eq!(ev9.payroll_id, 3);
    assert_eq!(ev9.employee_count, 4);

    let c = client.get_commitment(1).unwrap();
    assert_eq!(c.org, org);
    assert_eq!(c.merkle_root, root);
    assert_eq!(c.employee_count, 4);
    assert_eq!(c.expiration_timestamp, 500 + DEFAULT_EXPIRATION_WINDOW);
    assert!(!c.reclaimed);
}

#[test]
fn only_the_committing_org_reclaims() {
    let env = Env::default();
    let (mut client, org) = setup(&env);
    let other = addr(&env, OTHER_ORG);
    let root = leaf_hash(&env, "root");
    client.commit_payroll(org.clone(), 9, root, 1, Some(10), 0).result.unwrap();

    let denied = client.reclaim_unclaimed_funds(&other, 9, 20);
    assert_eq!(denied.signer, Some(other.clone()));
    assert_eq!(denied.result.err(), Some(Error::Unauthorized));
    assert_eq!(client.reclaim_unclaimed_funds(&org, 10, 20).result.err(), Some(Error::NotFound));

    // At the expiration timestamp itself the batch can be reclaimed.
    let ev = client.reclaim_unclaimed_funds(&org, 9, 10).result.unwrap();
    assert_eq!(ev.payroll_id, 9);
    assert_eq!(ev.org, org);
    assert!(client.get_commitment(9).unwrap().reclaimed);
}

#[test]
fn reclaimed_batch_no_longer_verifies() {
    let env = Env::default();
    let (mut client, org) = setup(&env);
    let leaf_a = leaf_hash(&env, "alice:100");
    let leaf_b = leaf_hash(&env, "bob:200");
    let root = pair_hash(&env, &leaf_a, &leaf_b);
    client.commit_payroll(org.clone(), 3, root, 2, Some(50), 0).result.unwrap();
    let proof = vec![leaf_b];
    assert!(client.verify_disbursement(&env, 50, 3, leaf_a, &proof, 0));
    client.reclaim_unclaimed_funds(&org, 3, 50).result.unwrap();
    assert!(!client.verify_disbursement(&env, 50, 3, leaf_a, &proof, 0));
    assert!(!client.verify_disbursement(&env, 0, 3, leaf_a, &proof, 0));
}

#[test]
fn compute_root_hashes_with_branch_prefix() {
    let env = Env::default();
    let a = leaf_hash(&env, "a");
    let b = leaf_hash(&env, "b");
    let c = leaf_hash(&env, "c");
    // An empty proof leaves the leaf itself.
    assert_eq!(PayrollContract::compute_root(&env, a, &Vec::new(), 7), a);
    // Even positions put the path's node on the left, odd ones on the right.
    assert_eq!(PayrollContract::compute_root(&env, a, &vec![b], 0), pair_hash(&env, &a, &b));
    assert_eq!(PayrollContract::compute_root(&env, a, &vec![b], 1), pair_hash(&env, &b, &a));
    let up = pair_hash(&env, &c, &pair_hash(&env, &a, &b));
    assert_eq!(PayrollContract::compute_root(&env, a, &vec![b, c], 2), up);
    assert_ne!(PayrollContract::compute_root(&env, a, &vec![b], 0), a);
}

#[test]
fn disbursement_leaf_hashes_the_xdr_preimage() {
    let env = Env::default();
    let recipient = addr(&env, BOB);
    let token = addr(&env, USDC);
    let salt = leaf_hash(&env, "salt");
    let leaf = PayrollContract::hash_disbursement_leaf(&env, &recipient, 3_500, &token, &salt);

    let amount_xdr: Vec<u8> = 3_500i128.to_xdr(&env).iter().collect();
    let mut expected_amount = vec![0u8, 0, 0, 10];
    expected_amount.extend_from_slice(&[0u8; 8]);
    expected_amount.extend_from_slice(&3_500u64.to_be_bytes());
    assert_eq!(amount_xdr, expected_amount);

    let mut buf = Bytes::new(&env);
    buf.push_back(0x00);
    buf.append(&Bytes::from_slice(&env, &recipient.xdr));
    buf.append(&Bytes::from_slice(&env, &amount_xdr));
    buf.append(&Bytes::from_slice(&env, &token.xdr));
    buf.append(&Bytes::from_array(&env, &salt));
    assert_eq!(leaf, env.crypto().sha256(&buf).to_array());

    let other = PayrollContract::hash_disbursement_leaf(&env, &recipient, 3_501, &token, &salt);
    assert_ne!(leaf, other);
}

#[test]
fn payroll_error_codes_match_contract_errors() {
    assert_eq!(Error::AlreadyCommitted.code(), 1);
    assert_eq!(Error::NotFound.code(), 2);
    assert_eq!(Error::EmptyBatch.code(), 3);
    assert_eq!(Error::BatchNotExpired.code(), 4);
    assert_eq!(Error::AlreadyReclaimed.code(), 5);
    assert_eq!(Error::Unauthorized.code(), 6);
    assert_eq!(Error::BatchExpired.code(), 7);
}

#[test]
fn preimages_carry_the_domain_prefixes() {
    let env = Env::default();
    let a = [7u8; 32];
    let b = [9u8; 32];
    let even = shieldedpay::payroll::node_preimage_bytes(&a, &b, 4);
    assert_eq!(even.len(), 65);
    assert_eq!(even[0], 1);
    assert_eq!(&even[1..33], &a[..]);
    assert_eq!(&even[33..], &b[..]);
    let odd = shieldedpay::payroll::node_preimage_bytes(&a, &b, 5);
    assert_eq!(&odd[1..33], &b[..]);
    assert_eq!(&odd[33..], &a[..]);

    let recipient = addr(&env, BOB);
    let token = addr(&env, USDC);
    let leaf = shieldedpay::payroll::leaf_preimage_bytes(&recipient, &vec![1, 2, 3], &token, &a);
    assert_eq!(leaf[0], 0);
    assert_eq!(leaf.len(), 1 + recipient.xdr.len() + 3 + token.xdr.len() + 32);
    assert_eq!(&leaf[1..1 + recipient.xdr.len()], &recipient.xdr[..]);
}

#[test]
fn root_is_claimable_checks_root_time_and_reclaim() {
    let env = Env::default();
    let (mut client, org) = setup(&env);
    let root = leaf_hash(&env, "root");
    let other = leaf_hash(&env, "other");
    client.commit_payroll(org.clone(), 12, root, 2, Some(100), 0).result.unwrap();
    assert!(client.root_is_claimable(100, 12, &root));
    assert!(!client.root_is_claimable(101, 12, &root));
    assert!(!client.root_is_claimable(50, 12, &other));
    assert!(!client.root_is_claimable(50, 13, &root));
    client.reclaim_unclaimed_funds(&org, 12, 100).result.unwrap();
    assert!(!client.root_is_claimable(50, 12, &root));
}

#[test]
fn recommitting_keeps_the_first_commitment_and_others_untouched() {
    let env = Env::default();
    let (mut client, org) = setup(&env);
    let other_org = addr(&env, OTHER_ORG);
    let first = leaf_hash(&env, "first");
    let second = leaf_hash(&env, "second");
    client.commit_payroll(org.clone(), 1, first, 2, Some(40), 0).result.unwrap();
    client.commit_payroll(org.clone(), 2, first, 3, Some(40), 0).result.unwrap();
    let again = client.commit_payroll(other_org, 1, second, 9, None, 0);
    assert_eq!(again.result.err(), Some(Error::AlreadyCommitted));
    let c = client.get_commitment(1).unwrap();
    assert_eq!(c.merkle_root, first);
    assert_eq!(c.org, org);
    assert_eq!(c.employee_count, 2);
    client.reclaim_unclaimed_funds(&org, 1, 40).result.unwrap();
    assert!(!client.get_commitment(2).unwrap().reclaimed);
    assert_eq!(client.get_commitment(2).unwrap().employee_count, 3);
}

#[test]
fn index_bits_beyond_the_proof_are_ignored() {
    let env = Env::default();
    let a = leaf_hash(&env, "a");
    let b = leaf_hash(&env, "b");
    let c = leaf_hash(&env, "c");
    let one = vec![b];
    assert_eq!(
        PayrollContract::compute_root(&env, a, &one, 5),
        PayrollContract::compute_root(&env, a, &one, 1)
    );
    let two = vec![b, c];
    assert_eq!(
        PayrollContract::compute_root(&env, a, &two, 6),
        PayrollContract::compute_root(&env, a, &two, 2)
    );
    assert_ne!(
        PayrollContract::compute_root(&env, a, &two, 1),
        PayrollContract::compute_root(&env, a, &two, 2)
    );
}

#[test]
fn negative_amounts_encode_as_twos_complement() {
    let env = Env::default();
    let xdr: Vec<u8> = (-1i128).to_xdr(&env).iter().collect();
    let mut expected = vec![0u8, 0, 0, 10];
    expected.extend_from_slice(&[0xffu8; 16]);
    assert_eq!(xdr, expected);
    let big: Vec<u8> = (i128::MIN).to_xdr(&env).iter().collect();
    let mut expected_big = vec![0u8, 0, 0, 10, 0x80];
    expected_big.extend_from_slice(&[0u8; 15]);
    assert_eq!(big, expected_big);
}
