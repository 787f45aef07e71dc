use montelibero_transactions::error::MtlError;
use montelibero_transactions::transaction::{parse_mtl_tx, MtlTransaction};

use substrate_stellar_sdk::compound_types::LimitedVarArray;
use substrate_stellar_sdk::network::PUBLIC_NETWORK;
use substrate_stellar_sdk::types::{
    Memo, MuxedAccount, MuxedAccountMed25519, Preconditions, PreconditionsV2,
    TimeBounds as SdkTimeBounds, Transaction, TransactionExt, TransactionV1Envelope,
};
use substrate_stellar_sdk::{SecretKey, TransactionEnvelope, XdrCodec};

fn sk(n: u8) -> SecretKey {
    SecretKey::from_binary([n; 32])
}

fn envelope_bytes(
    source: MuxedAccount,
    fee: u32,
    seq: i64,
    cond: Preconditions,
    signers: &[&SecretKey],
) -> Vec<u8> {
    let tx = Transaction {
        source_account: source,
        fee,
        seq_num: seq,
        cond,
        memo: Memo::MemoNone,
        operations: LimitedVarArray::new_empty(),
        ext: TransactionExt::V0,
    };
    let mut env = TransactionEnvelope::EnvelopeTypeTx(TransactionV1Envelope {
        tx,
        signatures: LimitedVarArray::new_empty(),
    });
    if !signers.is_empty() {
        env.sign(&PUBLIC_NETWORK, signers.to_vec()).unwrap();
    }
    env.to_xdr()
}

fn ed25519_source(s: &SecretKey) -> MuxedAccount {
    MuxedAccount::KeyTypeEd25519(*s.get_public().as_binary())
}

#[test]
fn decode_reads_header_fields() {
    let a = sk(1);
    let bytes = envelope_bytes(ed25519_source(&a), 150, 42, Preconditions::PrecondNone, &[]);
    let tx = MtlTransaction::from_bytes(&bytes).unwrap();
    assert_eq!(tx.fee(), 150);
    assert_eq!(tx.sequence_number(), 42);
    assert!(tx.time_bounds().is_none());
    assert_eq!(tx.source_account().unwrap(), a.get_public().as_binary().to_vec());
    assert_eq!(tx.signatures().len(), 0);
}

#[test]
fn decode_reads_time_bounds() {
    let a = sk(1);
    let cond = Preconditions::PrecondTime(SdkTimeBounds { min_time: 5, max_time: 99 });
    let bytes = envelope_bytes(ed25519_source(&a), 100, 7, cond, &[]);
    let tx = MtlTransaction::from_bytes(&bytes).unwrap();
    let tb = tx.time_bounds().unwrap();
    assert_eq!(tb.min_time, 5);
    assert_eq!(tb.max_time, 99);
}

#[test]
fn binary_round_trip() {
    let a = sk(2);
    let bytes = envelope_bytes(ed25519_source(&a), 200, 9, Preconditions::PrecondNone, &[&a]);
    let tx = MtlTransaction::from_bytes(&bytes).unwrap();
    assert_eq!(tx.into_bytes(), bytes);
    let again = MtlTransaction::from_bytes(&tx.into_bytes()).unwrap();
    assert_eq!(again.into_bytes(), bytes);
}

#[test]
fn text_round_trip_matches_sdk_encoding() {
    let a = sk(3);
    let bytes = envelope_bytes(ed25519_source(&a), 500, 77, Preconditions::PrecondNone, &[&a]);
    let tx = MtlTransaction::from_bytes(&bytes).unwrap();
    let text = tx.into_encoding();
    let sdk_env = TransactionEnvelope::from_xdr(&bytes).unwrap();
    let sdk_text = String::from_utf8(sdk_env.to_base64_xdr()).unwrap();
    assert_eq!(text, sdk_text);
    let back = parse_mtl_tx(text.as_bytes()).unwrap();
    assert_eq!(back.into_bytes(), bytes);
}

#[test]
fn identifier_matches_network_hash() {
    let a = sk(4);
    let bytes = envelope_bytes(ed25519_source(&a), 100, 3, Preconditions::PrecondNone, &[&a]);
    let tx = MtlTransaction::from_bytes(&bytes).unwrap();
    let sdk_env = TransactionEnvelope::from_xdr(&bytes).unwrap();
    assert_eq!(tx.txid(), sdk_env.get_hash(&PUBLIC_NETWORK).to_vec());
}

#[test]
fn identifier_ignores_signatures() {
    let a = sk(5);
    let b = sk(6);
    let unsigned = envelope_bytes(ed25519_source(&a), 100, 3, Preconditions::PrecondNone, &[]);
    let once = envelope_bytes(ed25519_source(&a), 100, 3, Preconditions::PrecondNone, &[&a]);
    let twice = envelope_bytes(ed25519_source(&a), 100, 3, Preconditions::PrecondNone, &[&a, &b]);
    let t0 = MtlTransaction::from_bytes(&unsigned).unwrap().txid();
    let t1 = MtlTransaction::from_bytes(&once).unwrap().txid();
    let t2 = MtlTransaction::from_bytes(&twice).unwrap().txid();
    assert_eq!(t0, t1);
    assert_eq!(t1, t2);
    let other = envelope_bytes(ed25519_source(&a), 101, 3, Preconditions::PrecondNone, &[]);
    let t3 = MtlTransaction::from_bytes(&other).unwrap().txid();
    assert_ne!(t0, t3);
}

#[test]
fn deprecated_version_is_rejected() {
    let bytes = vec![0u8, 0, 0, 0, 1, 2, 3];
    assert_eq!(MtlTransaction::from_bytes(&bytes).unwrap_err(), MtlError::DeprecatedTxVersion);
}

#[test]
fn fee_bump_envelope_is_rejected() {
    let bytes = vec![0u8, 0, 0, 5, 9, 9];
    assert_eq!(MtlTransaction::from_bytes(&bytes).unwrap_err(), MtlError::UnsupportedTx);
}

#[test]
fn malformed_bytes_are_rejected() {
    assert_eq!(MtlTransaction::from_bytes(&[]).unwrap_err(), MtlError::Decode);
    assert_eq!(MtlTransaction::from_bytes(&[0, 0, 0, 2, 1]).unwrap_err(), MtlError::Decode);
    assert_eq!(MtlTransaction::from_bytes(&[9, 9, 9, 9]).unwrap_err(), MtlError::Decode);
}

#[test]
fn invalid_text_is_rejected() {
    assert_eq!(parse_mtl_tx(b"!!!not base64!!!").unwrap_err(), MtlError::Decode);
    assert_eq!(parse_mtl_tx(b"").unwrap_err(), MtlError::Decode);
    assert_eq!(parse_mtl_tx(b"AAAA").unwrap_err(), MtlError::Decode);
}

#[test]
fn muxed_source_decodes_but_has_no_plain_key() {
    let a = sk(7);
    let muxed = MuxedAccount::KeyTypeMuxedEd25519(MuxedAccountMed25519 {
        id: 17,
        ed25519: *a.get_public().as_binary(),
    });
    let bytes = envelope_bytes(muxed, 100, 1, Preconditions::PrecondNone, &[]);
    let tx = MtlTransaction::from_bytes(&bytes).unwrap();
    assert_eq!(tx.source_account().unwrap_err(), MtlError::WrongSourceAccount);
}

#[test]
fn duplicate_preserves_encoding() {
    let a = sk(8);
    let bytes = envelope_bytes(ed25519_source(&a), 100, 1, Preconditions::PrecondNone, &[&a]);
    let tx = MtlTransaction::from_bytes(&bytes).unwrap();
    let copy = tx.duplicate();
    assert_eq!(copy.into_bytes(), tx.into_bytes());
    assert_eq!(copy.txid(), tx.txid());
}

#[test]
fn signature_hints_are_key_tails() {
    let a = sk(9);
    let b = sk(10);
    let bytes = envelope_bytes(ed25519_source(&a), 100, 1, Preconditions::PrecondNone, &[&a, &b]);
    let tx = MtlTransaction::from_bytes(&bytes).unwrap();
    let hints = tx.signatures();
    assert_eq!(hints.len(), 2);
    assert_eq!(hints[0], a.get_public().as_binary()[28..].to_vec());
    assert_eq!(hints[1], b.get_public().as_binary()[28..].to_vec());
}

#[test]
fn decode_reads_time_bounds_of_extended_preconditions() {
    let a = sk(11);
    let cond = Preconditions::PrecondV2(PreconditionsV2 {
        time_bounds: Some(SdkTimeBounds { min_time: 3, max_time: 44 }),
        ledger_bounds: None,
        min_seq_num: None,
        min_seq_age: 0,
        min_seq_ledger_gap: 0,
        extra_signers: LimitedVarArray::new_empty(),
    });
    let bytes = envelope_bytes(ed25519_source(&a), 100, 7, cond, &[&a]);
    let tx = MtlTransaction::from_bytes(&bytes).unwrap();
    let tb = tx.time_bounds().unwrap();
    assert_eq!(tb.min_time, 3);
    assert_eq!(tb.max_time, 44);
    assert_eq!(tx.into_bytes(), bytes);
}

#[test]
fn decode_reads_absent_bounds_of_extended_preconditions() {
    let a = sk(11);
    let cond = Preconditions::PrecondV2(PreconditionsV2 {
        time_bounds: None,
        ledger_bounds: None,
        min_seq_num: None,
        min_seq_age: 0,
        min_seq_ledger_gap: 0,
        extra_signers: LimitedVarArray::new_empty(),
    });
    let bytes = envelope_bytes(ed25519_source(&a), 100, 7, cond, &[]);
    let tx = MtlTransaction::from_bytes(&bytes).unwrap();
    assert!(tx.time_bounds().is_none());
}

#[test]
fn non_canonical_text_is_rejected() {
    let a = sk(12);
    let bytes = envelope_bytes(ed25519_source(&a), 100, 1, Preconditions::PrecondNone, &[]);
    let tx = MtlTransaction::from_bytes(&bytes).unwrap();
    let text = tx.into_encoding();
    let with_newline = format!("{text}\n");
    assert!(parse_mtl_tx(with_newline.as_bytes()).is_err());
    let with_extra = format!("{text}====");
    assert!(parse_mtl_tx(with_extra.as_bytes()).is_err());
}
