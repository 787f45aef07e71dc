//! The authorization data of an account, as the ledger directory
//! reports it: the live signer set (text key and weight) and the
//! required high threshold. The data is fetched fresh for every
//! validation call; the core never caches it.

use vstd::prelude::*;

use crate::adapters;
use crate::adapters::strkey_decode_of;
use crate::error::MtlError;

verus! {

/// One authorized signer of an account: its key in text encoding and
/// its voting weight. A weight of zero denotes a signer with no voting
/// power.
pub struct Signer {
    pub key: String,
    pub weight: i32,
}

/// The live authorization policy of an account: its signers and the
/// cumulative weight required to authorize a high-risk operation, which
/// transaction signing is modeled as.
pub struct AccountResponse {
    pub signers: Vec<Signer>,
    pub high_threshold: u8,
}

/// The mathematical value of an account's authorization policy.
pub struct AccountView {
    pub signers: Seq<(Seq<char>, i32)>,
    pub high_threshold: u8,
}

impl View for AccountResponse {
    type V = AccountView;

    open spec fn view(&self) -> AccountView {
        AccountView {
            signers: self.signers@.map_values(|s: Signer| (s.key@, s.weight)),
            high_threshold: self.high_threshold,
        }
    }
}

/// Whether every signer key of the account resolves to a plain public
/// key.
pub open spec fn all_keys_ok(signers: Seq<(Seq<char>, i32)>) -> bool {
    forall|i: int| 0 <= i < signers.len() ==> strkey_decode_of(signers[i].0) is Some
}

/// The signer set with each key resolved to its raw 32-byte form.
pub open spec fn resolved_signers(signers: Seq<(Seq<char>, i32)>) -> Seq<(Seq<u8>, i32)> {
    signers.map_values(|s: (Seq<char>, i32)| (strkey_decode_of(s.0).unwrap(), s.1))
}

/// The mathematical value of a vector of raw signer records.
pub open spec fn pairs_view(s: Seq<(Vec<u8>, i32)>) -> Seq<(Seq<u8>, i32)> {
    s.map_values(|p: (Vec<u8>, i32)| (p.0@, p.1))
}

/// The structural bounds the ledger enforces on an account: at most 20
/// signers, each with a weight between 0 and 255.
pub open spec fn account_wf(a: AccountView) -> bool {
    &&& a.signers.len() <= 20
    &&& forall|i: int| 0 <= i < a.signers.len() ==> 0 <= #[trigger] a.signers[i].1 <= 255
}

/// Resolves one signer's text key to its raw public key.
pub fn signer_key(sk: &Signer) -> (r: Result<Vec<u8>, MtlError>)
    ensures
        r matches Ok(k) ==> strkey_decode_of(sk.key@) == Some(k@) && k@.len() == 32,
        r matches Err(e) ==> e == MtlError::UnsupportedSignerKey && strkey_decode_of(sk.key@)
            is None,
{
    match adapters::decode_public_key(sk.key.as_str()) {
        Some(k) => Ok(k),
        None => Err(MtlError::UnsupportedSignerKey),
    }
}

/// Resolves the whole signer set of an account to raw keys, failing
/// when any signer key is not a plain public key.
pub fn get_mtl_signers(account: &AccountResponse) -> (r: Result<Vec<(Vec<u8>, i32)>, MtlError>)
    ensures
        r is Ok <==> all_keys_ok(account@.signers),
        r matches Ok(v) ==> pairs_view(v@) == resolved_signers(account@.signers),
        r matches Ok(v) ==> forall|i: int| 0 <= i < v@.len() ==> v@[i].0@.len() == 32,
        r matches Err(e) ==> e == MtlError::UnsupportedSignerKey,
{
    let mut keys: Vec<(Vec<u8>, i32)> = Vec::new();
    let n = account.signers.len();
    let mut i: usize = 0;
    while i < n
        invariant
            n == account.signers@.len(),
            0 <= i <= n,
            keys@.len() == i,
            forall|j: int| 0 <= j < i ==> strkey_decode_of(account@.signers[j].0) is Some,
            forall|j: int|
                0 <= j < i ==> (#[trigger] keys@[j]).0@ == strkey_decode_of(
                    account@.signers[j].0,
                ).unwrap() && keys@[j].1 == account@.signers[j].1,
            forall|j: int| 0 <= j < i ==> keys@[j].0@.len() == 32,
        decreases n - i,
    {
        let k = match signer_key(&account.signers[i]) {
            Ok(k) => k,
            Err(e) => {
                assert(account@.signers[i as int].0 == account.signers@[i as int].key@);
                return Err(e);
            },
        };
        let w = account.signers[i].weight;
        assert(account@.signers[i as int] == (account.signers@[i as int].key@, w));
        keys.push((k, w));
        i = i + 1;
    }
    proof {
        assert(pairs_view(keys@) =~= resolved_signers(account@.signers));
    }
    Ok(keys)
}

/// The cumulative signer weight that the account requires for a
/// high-risk operation.
pub fn get_required_weight(account: &AccountResponse) -> (r: u8)
    ensures
        r == account@.high_threshold,
{
    account.high_threshold
}

} // verus!
