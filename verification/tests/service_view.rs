use montelibero_transactions::account::{AccountResponse, Signer};
use montelibero_transactions::history::MtlTxMeta;
use montelibero_transactions::transaction::MtlTransaction;
use montelibero_transactions::view::{check_update_decision, index, TxHistoryItem, ViewSigner};

use substrate_stellar_sdk::compound_types::LimitedVarArray;
use substrate_stellar_sdk::network::PUBLIC_NETWORK;
use substrate_stellar_sdk::types::{
    Memo, MuxedAccount, Preconditions, Transaction, TransactionExt, TransactionV1Envelope,
};
use substrate_stellar_sdk::{SecretKey, TransactionEnvelope, XdrCodec};

fn sk(n: u8) -> SecretKey {
    SecretKey::from_binary([n; 32])
}

fn gkey(s: &SecretKey) -> String {
    String::from_utf8(s.get_public().to_encoding()).unwrap()
}

fn kbytes(s: &SecretKey) -> Vec<u8> {
    s.get_public().as_binary().to_vec()
}

fn hint(s: &SecretKey) -> Vec<u8> {
    s.get_public().as_binary()[28..].to_vec()
}

fn account(signers: &[(&SecretKey, i32)], threshold: u8) -> AccountResponse {
    AccountResponse {
        signers: signers
            .iter()
            .map(|(s, w)| Signer { key: gkey(s), weight: *w })
            .collect(),
        high_threshold: threshold,
    }
}

fn envelope_bytes(source: &SecretKey, fee: u32, seq: i64, signers: &[&SecretKey]) -> Vec<u8> {
    let tx = Transaction {
        source_account: MuxedAccount::KeyTypeEd25519(*source.get_public().as_binary()),
        fee,
        seq_num: seq,
        cond: Preconditions::PrecondNone,
        memo: Memo::MemoNone,
        operations: LimitedVarArray::new_empty(),
        ext: TransactionExt::V0,
    };
    let mut env = TransactionEnvelope::EnvelopeTypeTx(TransactionV1Envelope {
        tx,
        signatures: LimitedVarArray::new_empty(),
    });
    if !signers.is_empty() {
        env.sign(&PUBLIC_NETWORK, signers.to_vec()).unwrap();
    }
    env.to_xdr()
}

#[test]
fn landing_page_redirects_to_creation() {
    assert_eq!(index(), "/create");
}

#[test]
fn page_poll_decision() {
    assert!(!check_update_decision(false, false, 2, 2, true, true));
    assert!(check_update_decision(true, false, 2, 2, true, true));
    assert!(check_update_decision(false, false, 1, 2, true, true));
    assert!(check_update_decision(false, false, 2, 2, false, true));
}

#[test]
fn signer_list_is_filtered_flagged_and_sorted() {
    let a = sk(1);
    let b = sk(2);
    let c = sk(3);
    let acc = account(&[(&a, 30), (&b, 50), (&c, 0)], 60);
    let telegram_map = vec![(kbytes(&a), "@alice".to_string())];
    let signs_map = vec![(kbytes(&a), 5u32)];
    let signs = vec![hint(&a)];
    let list = ViewSigner::collect(&telegram_map, &signs_map, &acc, &signs).unwrap();
    // The zero-weight signer never faces the user; heaviest first.
    assert_eq!(list.len(), 2);
    assert_eq!(list[0].weight, 50);
    assert_eq!(list[1].weight, 30);
    let heavy = &list[0];
    let light = &list[1];
    assert_eq!(light.key, gkey(&a));
    assert!(light.signed);
    assert_eq!(light.telegram.as_deref(), Some("@alice"));
    assert_eq!(light.singed_monthly, 5);
    assert!(!light.is_few_signs);
    assert!(light.is_moderate_signs);
    assert_eq!(heavy.key, gkey(&b));
    assert!(!heavy.signed);
    assert!(heavy.telegram.is_none());
    assert_eq!(heavy.singed_monthly, 0);
    assert!(heavy.is_few_signs);
    assert!(heavy.is_moderate_signs);
    // The shortened key shows the first and last fifteen characters.
    let key = light.key.clone();
    let expected = format!("{}...{}", &key[0..15], &key[key.len() - 15..]);
    assert_eq!(light.short_key, expected);
}

#[test]
fn signer_list_rejects_bad_signer_key() {
    let acc = AccountResponse {
        signers: vec![Signer { key: "BROKEN".to_string(), weight: 1 }],
        high_threshold: 1,
    };
    assert!(ViewSigner::collect(&vec![], &vec![], &acc, &vec![]).is_err());
}

#[test]
fn history_lines_are_numbered_oldest_first() {
    let a = sk(1);
    let b = sk(2);
    let v1 = envelope_bytes(&a, 100, 1, &[&a]);
    let v2 = envelope_bytes(&a, 100, 1, &[&a, &b]);
    let rows = vec![(v2.clone(), 86400i64), (v1.clone(), 0i64)];
    let meta = MtlTxMeta::from_rows("t".to_string(), "d".to_string(), &rows).unwrap();
    let items = TxHistoryItem::collect(&meta);
    assert_eq!(items.len(), 2);
    assert_eq!(items[0].number, 1);
    assert_eq!(items[0].date, "1970-01-01 00:00:00");
    assert_eq!(items[0].tx, MtlTransaction::from_bytes(&v1).unwrap().into_encoding());
    assert_eq!(items[1].number, 2);
    assert_eq!(items[1].date, "1970-01-02 00:00:00");
    assert_eq!(items[1].tx, MtlTransaction::from_bytes(&v2).unwrap().into_encoding());
}
