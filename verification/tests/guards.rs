use montelibero_transactions::account::{AccountResponse, Signer};
use montelibero_transactions::constants::MTL_FOUNDATION;
use montelibero_transactions::error::MtlError;
use montelibero_transactions::transaction::{
    guard_fee, guard_mtl_account, is_mtl_account, MtlTransaction, TxSourceAccount,
};

use substrate_stellar_sdk::compound_types::LimitedVarArray;
use substrate_stellar_sdk::network::PUBLIC_NETWORK;
use substrate_stellar_sdk::types::{
    Memo, MuxedAccount, MuxedAccountMed25519, Preconditions, TimeBounds as SdkTimeBounds,
    Transaction, TransactionExt, TransactionV1Envelope,
};
use substrate_stellar_sdk::{PublicKey, SecretKey, TransactionEnvelope, XdrCodec};

fn sk(n: u8) -> SecretKey {
    SecretKey::from_binary([n; 32])
}

fn gkey(s: &SecretKey) -> String {
    String::from_utf8(s.get_public().to_encoding()).unwrap()
}

fn account(signers: &[(&SecretKey, i32)], threshold: u8) -> AccountResponse {
    AccountResponse {
        signers: signers
            .iter()
            .map(|(s, w)| Signer { key: gkey(s), weight: *w })
            .collect(),
        high_threshold: threshold,
    }
}

fn envelope_bytes(
    source: MuxedAccount,
    fee: u32,
    seq: i64,
    cond: Preconditions,
    signers: &[&SecretKey],
) -> Vec<u8> {
    let tx = Transaction {
        source_account: source,
        fee,
        seq_num: seq,
        cond,
        memo: Memo::MemoNone,
        operations: LimitedVarArray::new_empty(),
        ext: TransactionExt::V0,
    };
    let mut env = TransactionEnvelope::EnvelopeTypeTx(TransactionV1Envelope {
        tx,
        signatures: LimitedVarArray::new_empty(),
    });
    if !signers.is_empty() {
        env.sign(&PUBLIC_NETWORK, signers.to_vec()).unwrap();
    }
    env.to_xdr()
}

fn ed25519_source(s: &SecretKey) -> MuxedAccount {
    MuxedAccount::KeyTypeEd25519(*s.get_public().as_binary())
}

fn plain_tx(source: &SecretKey, fee: u32) -> MtlTransaction {
    let bytes = envelope_bytes(ed25519_source(source), fee, 1, Preconditions::PrecondNone, &[]);
    MtlTransaction::from_bytes(&bytes).unwrap()
}

#[test]
fn fee_inside_bounds_passes() {
    let a = sk(1);
    assert!(guard_fee(&plain_tx(&a, 150)).is_ok());
    assert!(guard_fee(&plain_tx(&a, 100)).is_ok());
    assert!(guard_fee(&plain_tx(&a, 20000)).is_ok());
}

#[test]
fn fee_outside_bounds_fails() {
    let a = sk(1);
    assert_eq!(guard_fee(&plain_tx(&a, 50)).unwrap_err(), MtlError::NonStandardFee);
    assert_eq!(guard_fee(&plain_tx(&a, 99)).unwrap_err(), MtlError::NonStandardFee);
    assert_eq!(guard_fee(&plain_tx(&a, 20001)).unwrap_err(), MtlError::NonStandardFee);
}

#[test]
fn time_window_absent_bounds_pass() {
    let a = sk(1);
    let tx = plain_tx(&a, 100);
    assert!(tx.has_time_window(123456));
    assert!(tx.guard_time_window(123456).is_ok());
}

#[test]
fn time_window_upper_bound_boundary() {
    let a = sk(1);
    let t: u64 = 1_000_000;
    let cond = Preconditions::PrecondTime(SdkTimeBounds { min_time: 0, max_time: t });
    let bytes = envelope_bytes(ed25519_source(&a), 100, 1, cond, &[]);
    let tx = MtlTransaction::from_bytes(&bytes).unwrap();
    assert!(tx.has_time_window(t - 86400));
    assert!(!tx.has_time_window(t - 86399));
    assert_eq!(tx.guard_time_window(t - 86399).unwrap_err(), MtlError::TooLittleTimeBound);
}

#[test]
fn time_window_no_upper_bound_passes() {
    let a = sk(1);
    let cond = Preconditions::PrecondTime(SdkTimeBounds { min_time: 10, max_time: 0 });
    let bytes = envelope_bytes(ed25519_source(&a), 100, 1, cond, &[]);
    let tx = MtlTransaction::from_bytes(&bytes).unwrap();
    assert!(tx.has_time_window(5));
}

#[test]
fn time_window_both_bounds() {
    let a = sk(1);
    let min: u64 = 1000;
    let cond = Preconditions::PrecondTime(SdkTimeBounds { min_time: min, max_time: min + 86400 });
    let bytes = envelope_bytes(ed25519_source(&a), 100, 1, cond, &[]);
    let tx = MtlTransaction::from_bytes(&bytes).unwrap();
    assert!(tx.has_time_window(0));
    let cond2 = Preconditions::PrecondTime(SdkTimeBounds { min_time: min, max_time: min + 86399 });
    let bytes2 = envelope_bytes(ed25519_source(&a), 100, 1, cond2, &[]);
    let tx2 = MtlTransaction::from_bytes(&bytes2).unwrap();
    assert!(!tx2.has_time_window(0));
    assert!(!tx2.has_time_window(min + 10));
}

#[test]
fn source_in_own_signer_set_is_accepted() {
    let a = sk(2);
    let tx = plain_tx(&a, 100);
    let acc = account(&[(&a, 10), (&sk(3), 5)], 20);
    assert!(guard_mtl_account(&tx, &acc).is_ok());
}

#[test]
fn zero_weight_signer_source_is_rejected() {
    let a = sk(2);
    let tx = plain_tx(&a, 100);
    let acc = account(&[(&a, 0), (&sk(3), 5)], 20);
    assert_eq!(guard_mtl_account(&tx, &acc).unwrap_err(), MtlError::WrongSourceAccount);
}

#[test]
fn unknown_source_is_rejected() {
    let a = sk(9);
    let tx = plain_tx(&a, 100);
    let acc = account(&[(&sk(1), 10)], 20);
    assert_eq!(guard_mtl_account(&tx, &acc).unwrap_err(), MtlError::WrongSourceAccount);
}

#[test]
fn allow_listed_source_is_accepted() {
    let foundation = PublicKey::from_encoding(MTL_FOUNDATION).unwrap();
    let bytes = envelope_bytes(
        MuxedAccount::KeyTypeEd25519(*foundation.as_binary()),
        100,
        1,
        Preconditions::PrecondNone,
        &[],
    );
    let tx = MtlTransaction::from_bytes(&bytes).unwrap();
    let acc = account(&[(&sk(1), 10)], 20);
    assert!(guard_mtl_account(&tx, &acc).is_ok());
}

#[test]
fn muxed_source_is_rejected() {
    let a = sk(2);
    let muxed = MuxedAccount::KeyTypeMuxedEd25519(MuxedAccountMed25519 {
        id: 3,
        ed25519: *a.get_public().as_binary(),
    });
    let bytes = envelope_bytes(muxed, 100, 1, Preconditions::PrecondNone, &[]);
    let tx = MtlTransaction::from_bytes(&bytes).unwrap();
    let acc = account(&[(&a, 10)], 20);
    let source = TxSourceAccount::Other;
    assert_eq!(is_mtl_account(&acc, &source).unwrap(), false);
    assert_eq!(guard_mtl_account(&tx, &acc).unwrap_err(), MtlError::WrongSourceAccount);
}

#[test]
fn bad_signer_key_fails_resolution() {
    let a = sk(2);
    let tx = plain_tx(&a, 100);
    let acc = AccountResponse {
        signers: vec![Signer { key: "NOT A KEY".to_string(), weight: 1 }],
        high_threshold: 20,
    };
    assert_eq!(guard_mtl_account(&tx, &acc).unwrap_err(), MtlError::UnsupportedSignerKey);
}

#[test]
fn unauthorized_source_fails_before_other_guards() {
    let a = sk(9);
    let bytes = envelope_bytes(ed25519_source(&a), 5, 1, Preconditions::PrecondNone, &[]);
    let tx = MtlTransaction::from_bytes(&bytes).unwrap();
    let acc = account(&[(&sk(1), 10)], 20);
    // The fee is also out of bounds, but the source guard comes first
    // and the failure is terminal: no sequence fetch is ever needed.
    assert_eq!(
        tx.validate_create_policies(&acc, 0).unwrap_err(),
        MtlError::WrongSourceAccount
    );
}

#[test]
fn fee_violation_reported_after_source_passes() {
    let a = sk(2);
    let bytes = envelope_bytes(ed25519_source(&a), 50, 1, Preconditions::PrecondNone, &[]);
    let tx = MtlTransaction::from_bytes(&bytes).unwrap();
    let acc = account(&[(&a, 10)], 20);
    assert_eq!(tx.validate_create_policies(&acc, 0).unwrap_err(), MtlError::NonStandardFee);
}
