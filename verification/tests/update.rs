use montelibero_transactions::account::{AccountResponse, Signer};
use montelibero_transactions::error::MtlError;
use montelibero_transactions::history::MtlTxMeta;
use montelibero_transactions::transaction::MtlTransaction;

use substrate_stellar_sdk::compound_types::LimitedVarArray;
use substrate_stellar_sdk::network::PUBLIC_NETWORK;
use substrate_stellar_sdk::types::{
    Memo, MuxedAccount, Preconditions, Transaction, TransactionExt, TransactionV1Envelope,
};
use substrate_stellar_sdk::{SecretKey, TransactionEnvelope, XdrCodec};

fn sk(n: u8) -> SecretKey {
    SecretKey::from_binary([n; 32])
}

fn gkey(s: &SecretKey) -> String {
    String::from_utf8(s.get_public().to_encoding()).unwrap()
}

fn account(signers: &[(&SecretKey, i32)], threshold: u8) -> AccountResponse {
    AccountResponse {
        signers: signers
            .iter()
            .map(|(s, w)| Signer { key: gkey(s), weight: *w })
            .collect(),
        high_threshold: threshold,
    }
}

fn envelope_bytes(source: &SecretKey, fee: u32, seq: i64, signers: &[&SecretKey]) -> Vec<u8> {
    let tx = Transaction {
        source_account: MuxedAccount::KeyTypeEd25519(*source.get_public().as_binary()),
        fee,
        seq_num: seq,
        cond: Preconditions::PrecondNone,
        memo: Memo::MemoNone,
        operations: LimitedVarArray::new_empty(),
        ext: TransactionExt::V0,
    };
    let mut env = TransactionEnvelope::EnvelopeTypeTx(TransactionV1Envelope {
        tx,
        signatures: LimitedVarArray::new_empty(),
    });
    if !signers.is_empty() {
        env.sign(&PUBLIC_NETWORK, signers.to_vec()).unwrap();
    }
    env.to_xdr()
}

fn decode(bytes: &[u8]) -> MtlTransaction {
    MtlTransaction::from_bytes(bytes).unwrap()
}

#[test]
fn additive_amendment_is_accepted() {
    let a = sk(1);
    let b = sk(2);
    let acc = account(&[(&a, 30), (&b, 30)], 60);
    let stored = decode(&envelope_bytes(&a, 100, 1, &[&a]));
    let updated = decode(&envelope_bytes(&a, 100, 1, &[&a, &b]));
    assert!(stored.validate_update(&updated, &acc).is_ok());
    assert_eq!(stored.txid(), updated.txid());
}

#[test]
fn content_change_is_rejected() {
    let a = sk(1);
    let acc = account(&[(&a, 30)], 60);
    let stored = decode(&envelope_bytes(&a, 100, 1, &[&a]));
    let changed = decode(&envelope_bytes(&a, 101, 1, &[&a]));
    assert_eq!(
        stored.validate_update(&changed, &acc).unwrap_err(),
        MtlError::UpdateContentChanged
    );
}

#[test]
fn dropped_signature_is_rejected() {
    let a = sk(1);
    let b = sk(2);
    let acc = account(&[(&a, 30), (&b, 30)], 60);
    let stored = decode(&envelope_bytes(&a, 100, 1, &[&a]));
    let without_a = decode(&envelope_bytes(&a, 100, 1, &[&b]));
    assert_eq!(
        stored.validate_update(&without_a, &acc).unwrap_err(),
        MtlError::UpdateSignatureRemoved
    );
}

#[test]
fn oversigned_amendment_is_rejected() {
    let a = sk(1);
    let b = sk(2);
    let c = sk(3);
    let acc = account(&[(&a, 30), (&b, 30), (&c, 30)], 60);
    let stored = decode(&envelope_bytes(&a, 100, 1, &[&a, &b]));
    let over = decode(&envelope_bytes(&a, 100, 1, &[&a, &b, &c]));
    assert_eq!(
        stored.validate_update(&over, &acc).unwrap_err(),
        MtlError::SignaturesExcess
    );
}

#[test]
fn unchanged_amendment_detected_by_encoded_forms() {
    let a = sk(1);
    let acc = account(&[(&a, 30)], 60);
    let bytes = envelope_bytes(&a, 100, 1, &[&a]);
    let stored = decode(&bytes);
    let same = decode(&bytes);
    // The protocol itself accepts the no-op amendment; the caller
    // detects it by comparing the encoded forms.
    assert!(stored.validate_update(&same, &acc).is_ok());
    assert_eq!(stored.into_bytes(), same.into_bytes());
    let b = sk(2);
    let extended = decode(&envelope_bytes(&a, 100, 1, &[&a, &b]));
    assert_ne!(stored.into_bytes(), extended.into_bytes());
}

#[test]
fn history_rebuilds_from_rows_newest_first() {
    let a = sk(1);
    let b = sk(2);
    let v1 = envelope_bytes(&a, 100, 1, &[&a]);
    let v2 = envelope_bytes(&a, 100, 1, &[&a, &b]);
    let rows = vec![(v2.clone(), 86400i64), (v1.clone(), 0i64)];
    let meta = MtlTxMeta::from_rows("t".to_string(), "d".to_string(), &rows).unwrap();
    assert_eq!(meta.title, "t");
    assert_eq!(meta.description, "d");
    assert_eq!(meta.history.len(), 2);
    let (current, at) = meta.current();
    assert_eq!(current.into_bytes(), v2);
    assert_eq!(at, 86400);
}

#[test]
fn history_rejects_undecodable_row() {
    let a = sk(1);
    let v1 = envelope_bytes(&a, 100, 1, &[&a]);
    let rows = vec![(v1, 0i64), (vec![1, 2, 3], 1i64)];
    assert_eq!(
        MtlTxMeta::from_rows("t".to_string(), "d".to_string(), &rows).unwrap_err(),
        MtlError::Decode
    );
}

#[test]
fn error_messages_name_the_failure() {
    assert_eq!(MtlError::NonStandardFee.message(), "Transaction has non standard fee");
    assert_eq!(MtlError::WrongSourceAccount.message(), "Source account is not MTL related");
    assert_eq!(MtlError::DeprecatedTxVersion.message(), "Used version 0 transaction");
    assert_eq!(
        MtlError::UpdateSignatureRemoved.message(),
        "Update removed signature from transaction"
    );
}
