use montelibero_transactions::account::{get_mtl_signers, get_required_weight, AccountResponse, Signer};
use montelibero_transactions::error::MtlError;
use montelibero_transactions::transaction::{validate_mtl_tx, MtlTransaction};

use substrate_stellar_sdk::compound_types::{LimitedVarArray, LimitedVarOpaque};
use substrate_stellar_sdk::network::PUBLIC_NETWORK;
use substrate_stellar_sdk::types::{
    DecoratedSignature, Memo, MuxedAccount, Preconditions, Transaction, TransactionExt,
    TransactionV1Envelope,
};
use substrate_stellar_sdk::{SecretKey, TransactionEnvelope, XdrCodec};

fn sk(n: u8) -> SecretKey {
    SecretKey::from_binary([n; 32])
}

fn gkey(s: &SecretKey) -> String {
    String::from_utf8(s.get_public().to_encoding()).unwrap()
}

fn account(signers: &[(&SecretKey, i32)], threshold: u8) -> AccountResponse {
    AccountResponse {
        signers: signers
            .iter()
            .map(|(s, w)| Signer { key: gkey(s), weight: *w })
            .collect(),
        high_threshold: threshold,
    }
}

fn envelope_bytes(source: &SecretKey, fee: u32, seq: i64, signers: &[&SecretKey]) -> Vec<u8> {
    let tx = Transaction {
        source_account: MuxedAccount::KeyTypeEd25519(*source.get_public().as_binary()),
        fee,
        seq_num: seq,
        cond: Preconditions::PrecondNone,
        memo: Memo::MemoNone,
        operations: LimitedVarArray::new_empty(),
        ext: TransactionExt::V0,
    };
    let mut env = TransactionEnvelope::EnvelopeTypeTx(TransactionV1Envelope {
        tx,
        signatures: LimitedVarArray::new_empty(),
    });
    if !signers.is_empty() {
        env.sign(&PUBLIC_NETWORK, signers.to_vec()).unwrap();
    }
    env.to_xdr()
}

fn decode(bytes: &[u8]) -> MtlTransaction {
    MtlTransaction::from_bytes(bytes).unwrap()
}

#[test]
fn signer_resolution_and_threshold() {
    let a = sk(1);
    let b = sk(2);
    let acc = account(&[(&a, 30), (&b, 40)], 60);
    assert_eq!(get_required_weight(&acc), 60);
    let keys = get_mtl_signers(&acc).unwrap();
    assert_eq!(keys.len(), 2);
    assert_eq!(keys[0].0, a.get_public().as_binary().to_vec());
    assert_eq!(keys[0].1, 30);
    assert_eq!(keys[1].0, b.get_public().as_binary().to_vec());
    assert_eq!(keys[1].1, 40);
}

#[test]
fn signed_keys_are_matched_by_hint() {
    let a = sk(1);
    let b = sk(2);
    let c = sk(3);
    let acc = account(&[(&a, 30), (&b, 40), (&c, 50)], 60);
    let bytes = envelope_bytes(&a, 100, 1, &[&a, &c]);
    let tx = decode(&bytes);
    let signed = tx.get_signed_keys(&acc).unwrap();
    assert_eq!(signed.len(), 2);
    assert_eq!(signed[0].0, a.get_public().as_binary().to_vec());
    assert_eq!(signed[1].0, c.get_public().as_binary().to_vec());
}

#[test]
fn collected_weight_sums_signed_nonzero_signers() {
    let a = sk(1);
    let b = sk(2);
    let c = sk(3);
    let acc = account(&[(&a, 30), (&b, 40), (&c, 0)], 60);
    let bytes = envelope_bytes(&a, 100, 1, &[&a, &c]);
    let tx = decode(&bytes);
    // c has no voting power; only a counts.
    assert_eq!(tx.collected_weight(&acc).unwrap(), 30);
    assert_eq!(tx.is_publication_ready(&acc).unwrap(), false);
    let bytes2 = envelope_bytes(&a, 100, 1, &[&a, &b]);
    let tx2 = decode(&bytes2);
    assert_eq!(tx2.collected_weight(&acc).unwrap(), 70);
    assert_eq!(tx2.is_publication_ready(&acc).unwrap(), true);
}

#[test]
fn threshold_tie_break_third_signature_is_excess() {
    let a = sk(1);
    let b = sk(2);
    let c = sk(3);
    let acc = account(&[(&a, 30), (&b, 30), (&c, 30)], 60);
    let over = decode(&envelope_bytes(&a, 100, 1, &[&a, &b, &c]));
    assert_eq!(over.guard_excess_signatures(&acc).unwrap_err(), MtlError::SignaturesExcess);
    let exact = decode(&envelope_bytes(&a, 100, 1, &[&a, &b]));
    assert!(exact.guard_excess_signatures(&acc).is_ok());
    assert_eq!(exact.collected_weight(&acc).unwrap(), 60);
    assert_eq!(exact.is_publication_ready(&acc).unwrap(), true);
}

#[test]
fn under_signed_is_not_excess() {
    let a = sk(1);
    let acc = account(&[(&a, 30), (&sk(2), 30)], 60);
    let tx = decode(&envelope_bytes(&a, 100, 1, &[&a]));
    assert!(tx.guard_excess_signatures(&acc).is_ok());
    assert_eq!(tx.is_publication_ready(&acc).unwrap(), false);
}

#[test]
fn valid_signatures_verify() {
    let a = sk(1);
    let b = sk(2);
    let acc = account(&[(&a, 30), (&b, 30)], 60);
    let tx = decode(&envelope_bytes(&a, 100, 1, &[&a, &b]));
    let keys = get_mtl_signers(&acc).unwrap();
    assert!(tx.check_signatures(&keys));
}

#[test]
fn forged_signature_is_rejected() {
    let a = sk(1);
    let acc = account(&[(&a, 30)], 30);
    // A signature of the right shape and hint, but not produced by the key.
    let tx_inner = Transaction {
        source_account: MuxedAccount::KeyTypeEd25519(*a.get_public().as_binary()),
        fee: 100,
        seq_num: 1,
        cond: Preconditions::PrecondNone,
        memo: Memo::MemoNone,
        operations: LimitedVarArray::new_empty(),
        ext: TransactionExt::V0,
    };
    let fake = DecoratedSignature {
        hint: a.get_public().get_signature_hint(),
        signature: LimitedVarOpaque::new(vec![7u8; 64]).unwrap(),
    };
    let env = TransactionEnvelope::EnvelopeTypeTx(TransactionV1Envelope {
        tx: tx_inner,
        signatures: LimitedVarArray::new(vec![fake]).unwrap(),
    });
    let tx = decode(&env.to_xdr());
    let keys = get_mtl_signers(&acc).unwrap();
    assert!(!tx.check_signatures(&keys));
    assert_eq!(
        tx.validate_create_with_sequence(&acc, 1).unwrap_err(),
        MtlError::InvalidSignature
    );
}

#[test]
fn stale_sequence_number_is_rejected() {
    let a = sk(1);
    let acc = account(&[(&a, 30)], 30);
    let tx = decode(&envelope_bytes(&a, 100, 42, &[&a]));
    assert_eq!(
        tx.validate_create_with_sequence(&acc, 43).unwrap_err(),
        MtlError::SequenceNumber
    );
    assert!(tx.validate_create_with_sequence(&acc, 42).is_ok());
    assert!(tx.validate_create_with_sequence(&acc, 41).is_ok());
}

#[test]
fn full_create_validation_accepts_good_transaction() {
    let a = sk(1);
    let b = sk(2);
    let acc = account(&[(&a, 30), (&b, 30)], 60);
    let bytes = envelope_bytes(&a, 150, 10, &[&a]);
    let tx = decode(&bytes);
    assert!(tx.validate_create(&acc, 10, 1000).is_ok());
    // And through the one-call front door, from the text form.
    let text = tx.into_encoding();
    let validated = validate_mtl_tx(text.as_bytes(), &acc, 10, 1000).unwrap();
    assert_eq!(validated.into_bytes(), bytes);
}

#[test]
fn full_create_validation_rejects_oversigned() {
    let a = sk(1);
    let b = sk(2);
    let c = sk(3);
    let acc = account(&[(&a, 30), (&b, 30), (&c, 30)], 60);
    let tx = decode(&envelope_bytes(&a, 150, 10, &[&a, &b, &c]));
    assert_eq!(tx.validate_create(&acc, 10, 1000).unwrap_err(), MtlError::SignaturesExcess);
}

#[test]
fn stale_sequence_reported_before_signature_check() {
    let a = sk(1);
    let acc = account(&[(&a, 30)], 30);
    // The envelope carries no signature at all, which would fail the
    // signature check, but the stale sequence number is reported first.
    let tx = decode(&envelope_bytes(&a, 100, 42, &[]));
    assert_eq!(
        tx.validate_create_with_sequence(&acc, 100).unwrap_err(),
        MtlError::SequenceNumber
    );
}

#[test]
fn unsigned_transaction_has_no_collected_weight() {
    let a = sk(1);
    let acc = account(&[(&a, 30)], 30);
    let tx = decode(&envelope_bytes(&a, 100, 1, &[]));
    assert_eq!(tx.collected_weight(&acc).unwrap(), 0);
    assert!(tx.check_signatures(&get_mtl_signers(&acc).unwrap()));
    assert!(tx.guard_excess_signatures(&acc).is_ok());
}

#[test]
fn duplicate_signer_records_are_both_matched() {
    let a = sk(1);
    // The directory lists the same key twice; one attached signature
    // picks up both records, as fingerprint matching tolerates.
    let acc = account(&[(&a, 30), (&a, 30)], 60);
    let tx = decode(&envelope_bytes(&a, 100, 1, &[&a]));
    assert_eq!(tx.collected_weight(&acc).unwrap(), 60);
    assert_eq!(tx.is_publication_ready(&acc).unwrap(), true);
}

#[test]
fn zero_threshold_makes_any_signature_excess() {
    let a = sk(1);
    let acc = account(&[(&a, 30)], 0);
    let signed = decode(&envelope_bytes(&a, 100, 1, &[&a]));
    assert_eq!(signed.guard_excess_signatures(&acc).unwrap_err(), MtlError::SignaturesExcess);
    let unsigned = decode(&envelope_bytes(&a, 100, 1, &[]));
    assert!(unsigned.guard_excess_signatures(&acc).is_ok());
    assert_eq!(unsigned.is_publication_ready(&acc).unwrap(), true);
}
