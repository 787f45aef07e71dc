//! The transaction envelope: its wire codec, canonical identifier,
//! policy guards, signature accounting and update protocol.
//!
//! An `MtlTransaction` holds the canonical binary encoding of a
//! version-1 transaction envelope together with the header fields that
//! the validation core reads from it (source account, fee, sequence
//! number, time bounds) and its attached signature list. A type
//! invariant ties the fields to the bytes: the fields are exactly what
//! the wire format stores, so re-encoding is returning the bytes.

use vstd::prelude::*;

use crate::adapters;
use crate::adapters::{envelope_sigs, sha256_of, sig_valid_of};
use crate::bigend::{
    as_signed_64, be_u32_at, be_u64_at, bytes_eq, copy_bytes, copy_range, append_bytes,
    read_u32_at, read_u64_at, signed_of_u64,
};
use crate::account::{
    account_wf, all_keys_ok, get_mtl_signers, pairs_view, resolved_signers,
    AccountResponse, AccountView,
};
use crate::adapters::strkey_decode_of;
use crate::constants::{
    BTC_FOUNDATION, BTC_TREASURY, MAX_FEE, MIN_FEE, MTLCITY_ISSUERER, MTL_ADDITIONAL_ACCOUNT,
    MTL_FOUNDATION, MTL_ISSUERER, MTL_RECT_ACCOUNT, NETWORK_PASSPHRASE, SIGNING_TIME_WINDOW,
};
use crate::error::MtlError;

verus! {

/// One attached signature: the 4-byte hint of the signing key and the
/// raw signature bytes.
#[derive(Debug)]
pub struct SigEntry {
    pub hint: Vec<u8>,
    pub signature: Vec<u8>,
}

/// The source account of a transaction: a plain ed25519 account, or an
/// address form (multiplexed or otherwise) that cannot be reduced to a
/// plain public key and is rejected by the source-account guard.
#[derive(Debug)]
pub enum TxSourceAccount {
    Ed25519(Vec<u8>),
    Other,
}

/// The mathematical value of a source account.
pub enum SourceView {
    Ed25519(Seq<u8>),
    Other,
}

impl View for TxSourceAccount {
    type V = SourceView;

    open spec fn view(&self) -> SourceView {
        match self {
            TxSourceAccount::Ed25519(k) => SourceView::Ed25519(k@),
            TxSourceAccount::Other => SourceView::Other,
        }
    }
}

/// An optional signing window: seconds since the epoch, inclusive, with
/// `max_time == 0` meaning "no upper bound".
#[derive(Clone, Copy, Debug, PartialEq, Eq, Structural)]
pub struct TimeBounds {
    pub min_time: u64,
    pub max_time: u64,
}

/// The mathematical value of a transaction envelope.
pub struct TxView {
    pub bytes: Seq<u8>,
    pub source: SourceView,
    pub fee: u32,
    pub seq_num: i64,
    pub time_bounds: Option<TimeBounds>,
    pub sigs: Seq<(Seq<u8>, Seq<u8>)>,
}

/// The signature lists of a vector of signature entries.
pub open spec fn sig_views(s: Seq<SigEntry>) -> Seq<(Seq<u8>, Seq<u8>)> {
    s.map_values(|e: SigEntry| (e.hint@, e.signature@))
}

/// Rounds a length up to the next multiple of four, as the wire format
/// pads every variable-length field.
pub open spec fn pad4(n: int) -> int {
    if n % 4 == 0 {
        n
    } else {
        n + (4 - n % 4)
    }
}

/// The encoded size of one attached signature: hint, length word and
/// padded signature bytes.
pub open spec fn sig_entry_len(sig: Seq<u8>) -> int {
    8 + pad4(sig.len() as int)
}

/// The encoded size of the whole signature section: count word plus each
/// entry.
pub open spec fn sig_section_len(sigs: Seq<(Seq<u8>, Seq<u8>)>) -> int
    decreases sigs.len(),
{
    if sigs.len() == 0 {
        4
    } else {
        sig_section_len(sigs.drop_last()) + sig_entry_len(sigs.last().1)
    }
}

/// The structural bounds that the wire format enforces on a signature
/// list: at most 20 entries, 4-byte hints, signatures of at most 64
/// bytes.
pub open spec fn sigs_wf(sigs: Seq<(Seq<u8>, Seq<u8>)>) -> bool {
    &&& sigs.len() <= 20
    &&& forall|i: int| 0 <= i < sigs.len() ==> sigs[i].0.len() == 4 && sigs[i].1.len() <= 64
}

/// Reads the source account stored at offset 4 of an envelope encoding,
/// yielding the account and the offset that follows it.
pub open spec fn parse_source(b: Seq<u8>) -> Option<(SourceView, int)> {
    if b.len() < 8 {
        None
    } else {
        let d = be_u32_at(b, 4);
        if d == 0 {
            if b.len() >= 40 {
                Some((SourceView::Ed25519(b.subrange(8, 40)), 40int))
            } else {
                None
            }
        } else if d == 256 {
            if b.len() >= 48 {
                Some((SourceView::Other, 48int))
            } else {
                None
            }
        } else {
            None
        }
    }
}

/// Reads the precondition block stored at offset `i`, yielding the time
/// bounds it carries (if any) and the offset that follows it. A block
/// of the extended form is read up to its own time bounds; what follows
/// them is part of the opaque transaction body.
pub open spec fn parse_cond(b: Seq<u8>, i: int) -> Option<(Option<TimeBounds>, int)> {
    if i + 4 > b.len() {
        None
    } else {
        let d = be_u32_at(b, i);
        if d == 0 {
            Some((None, i + 4))
        } else if d == 1 {
            if i + 20 <= b.len() {
                Some(
                    (
                        Some(
                            TimeBounds {
                                min_time: be_u64_at(b, i + 4) as u64,
                                max_time: be_u64_at(b, i + 12) as u64,
                            },
                        ),
                        i + 20,
                    ),
                )
            } else {
                None
            }
        } else if d == 2 {
            if i + 8 > b.len() {
                None
            } else {
                let o = be_u32_at(b, i + 4);
                if o == 0 {
                    Some((None, i + 8))
                } else if o == 1 {
                    if i + 24 <= b.len() {
                        Some(
                            (
                                Some(
                                    TimeBounds {
                                        min_time: be_u64_at(b, i + 8) as u64,
                                        max_time: be_u64_at(b, i + 16) as u64,
                                    },
                                ),
                                i + 24,
                            ),
                        )
                    } else {
                        None
                    }
                } else {
                    None
                }
            }
        } else {
            None
        }
    }
}

/// Reads the header of an envelope encoding: source account, fee,
/// sequence number and time bounds, together with the offset where the
/// opaque remainder of the transaction body starts.
pub open spec fn parse_front(b: Seq<u8>) -> Option<
    (SourceView, u32, i64, Option<TimeBounds>, int),
> {
    match parse_source(b) {
        None => None,
        Some((source, i)) => {
            if i + 12 > b.len() {
                None
            } else {
                let fee = be_u32_at(b, i) as u32;
                let seq = as_signed_64(be_u64_at(b, i + 4)) as i64;
                match parse_cond(b, i + 12) {
                    None => None,
                    Some((tb, end)) => Some((source, fee, seq, tb, end)),
                }
            }
        },
    }
}

/// Well-formedness of a transaction value: the envelope bytes carry the
/// supported version tag, the header fields and the signature list are
/// exactly what the bytes store, and the signature section fits behind
/// the transaction body.
pub open spec fn wf_tx(v: TxView) -> bool {
    &&& v.bytes.len() >= 4
    &&& be_u32_at(v.bytes, 0) == 2
    &&& envelope_sigs(v.bytes) == Some(v.sigs)
    &&& sigs_wf(v.sigs)
    &&& parse_front(v.bytes) matches Some(f) && v.source == f.0 && v.fee == f.1 && v.seq_num
        == f.2 && v.time_bounds == f.3 && f.4 + sig_section_len(v.sigs) <= v.bytes.len()
}

/// What decoding an envelope from binary yields: the decoded value, or
/// the specific failure that classifies the bytes.
pub open spec fn spec_from_bytes(b: Seq<u8>) -> Result<TxView, MtlError> {
    if b.len() < 4 {
        Err(MtlError::Decode)
    } else {
        let tag = be_u32_at(b, 0);
        if tag == 0 {
            Err(MtlError::DeprecatedTxVersion)
        } else if tag == 1 || (3 <= tag && tag <= 9) {
            Err(MtlError::UnsupportedTx)
        } else if tag != 2 {
            Err(MtlError::Decode)
        } else {
            match envelope_sigs(b) {
                None => Err(MtlError::Decode),
                Some(sigs) => match parse_front(b) {
                    None => Err(MtlError::Decode),
                    Some(f) => {
                        if f.4 + sig_section_len(sigs) <= b.len() {
                            Ok(
                                TxView {
                                    bytes: b,
                                    source: f.0,
                                    fee: f.1,
                                    seq_num: f.2,
                                    time_bounds: f.3,
                                    sigs: sigs,
                                },
                            )
                        } else {
                            Err(MtlError::Decode)
                        }
                    },
                },
            }
        }
    }
}

/// The transaction body: everything of the encoding between the version
/// tag and the signature section. Amendments change signatures only,
/// never these bytes.
pub open spec fn body_bytes(v: TxView) -> Seq<u8> {
    v.bytes.subrange(4, v.bytes.len() - sig_section_len(v.sigs))
}

/// The digest of the target network's passphrase, which scopes every
/// identifier to that network.
pub open spec fn network_id() -> Seq<u8> {
    sha256_of(vstd::utf8::encode_utf8(NETWORK_PASSPHRASE@))
}

/// The canonical identifier of a transaction: the digest of the
/// network identifier, the signed-transaction tag and the transaction
/// body. It does not depend on the attached signatures.
pub open spec fn spec_txid(v: TxView) -> Seq<u8> {
    sha256_of(network_id() + seq![0u8, 0u8, 0u8, 2u8] + body_bytes(v))
}

/// The hints of the attached signatures, in attachment order.
pub open spec fn spec_hints(v: TxView) -> Seq<Seq<u8>> {
    v.sigs.map_values(|p: (Seq<u8>, Seq<u8>)| p.0)
}

/// A decoded transaction envelope from a treasury account, as validated
/// and stored by the multi-signature service.
#[derive(Debug)]
pub struct MtlTransaction {
    bytes: Vec<u8>,
    source: TxSourceAccount,
    fee: u32,
    seq_num: i64,
    time_bounds: Option<TimeBounds>,
    sigs: Vec<SigEntry>,
}

impl View for MtlTransaction {
    type V = TxView;

    closed spec fn view(&self) -> TxView {
        TxView {
            bytes: self.bytes@,
            source: self.source@,
            fee: self.fee,
            seq_num: self.seq_num,
            time_bounds: self.time_bounds,
            sigs: sig_views(self.sigs@),
        }
    }
}

/// Reads the source account of the encoding, mirroring `parse_source`.
fn read_source(bytes: &[u8]) -> (r: Option<(TxSourceAccount, usize)>)
    requires
        bytes@.len() >= 4,
    ensures
        r matches Some(p) ==> parse_source(bytes@) matches Some(q) && q.0 == p.0@ && q.1 == p.1
            as int,
        r is None ==> parse_source(bytes@) is None,
{
    if bytes.len() < 8 {
        return None;
    }
    let d = read_u32_at(bytes, 4);
    if d == 0 {
        if bytes.len() >= 40 {
            let k = copy_range(bytes, 8, 40);
            Some((TxSourceAccount::Ed25519(k), 40))
        } else {
            None
        }
    } else if d == 256 {
        if bytes.len() >= 48 {
            Some((TxSourceAccount::Other, 48))
        } else {
            None
        }
    } else {
        None
    }
}

/// Reads the precondition block at offset `i`, mirroring `parse_cond`.
fn read_cond(bytes: &[u8], i: usize) -> (r: Option<(Option<TimeBounds>, usize)>)
    requires
        i <= bytes@.len(),
        i <= 100,
    ensures
        r matches Some(p) ==> parse_cond(bytes@, i as int) matches Some(q) && q.0 == p.0 && q.1
            == p.1 as int,
        r is None ==> parse_cond(bytes@, i as int) is None,
{
    if i + 4 > bytes.len() {
        return None;
    }
    let d = read_u32_at(bytes, i);
    if d == 0 {
        Some((None, i + 4))
    } else if d == 1 {
        if i + 20 <= bytes.len() {
            let min_time = read_u64_at(bytes, i + 4);
            let max_time = read_u64_at(bytes, i + 12);
            Some((Some(TimeBounds { min_time, max_time }), i + 20))
        } else {
            None
        }
    } else if d == 2 {
        if i + 8 > bytes.len() {
            return None;
        }
        let o = read_u32_at(bytes, i + 4);
        if o == 0 {
            Some((None, i + 8))
        } else if o == 1 {
            if i + 24 <= bytes.len() {
                let min_time = read_u64_at(bytes, i + 8);
                let max_time = read_u64_at(bytes, i + 16);
                Some((Some(TimeBounds { min_time, max_time }), i + 24))
            } else {
                None
            }
        } else {
            None
        }
    } else {
        None
    }
}

/// Computes the encoded size of the signature section.
fn sig_section_length(sigs: &Vec<SigEntry>) -> (r: usize)
    requires
        sigs_wf(sig_views(sigs@)),
    ensures
        r == sig_section_len(sig_views(sigs@)),
        r <= 1444,
{
    let ghost all = sig_views(sigs@);
    let mut acc: usize = 4;
    let n = sigs.len();
    let mut i: usize = 0;
    while i < n
        invariant
            n == sigs@.len(),
            sigs_wf(sig_views(sigs@)),
            all == sig_views(sigs@),
            0 <= i <= n,
            acc == sig_section_len(all.take(i as int)),
            acc <= 4 + 72 * i,
            n <= 20,
        decreases n - i,
    {
        let m = sigs[i].signature.len();
        assert(all[i as int].1 == sigs@[i as int].signature@);
        assert(m <= 64);
        let p = if m % 4 == 0 {
            m
        } else {
            m + (4 - m % 4)
        };
        assert(p == pad4(m as int));
        assert(p <= 64);
        proof {
            assert(all.take(i + 1).drop_last() =~= all.take(i as int));
            assert(all.take(i + 1).last() == all[i as int]);
        }
        acc = acc + 8 + p;
        i = i + 1;
    }
    proof {
        assert(all.take(n as int) =~= all);
    }
    acc
}

impl MtlTransaction {
    /// Ties the stored fields to the stored bytes.
    #[verifier::type_invariant]
    spec fn type_inv(self) -> bool {
        wf_tx(self@)
    }

    /// Decodes a transaction envelope from its canonical binary form,
    /// rejecting the legacy envelope version and every envelope type
    /// other than a plain signed transaction.
    pub fn from_bytes(bytes: &[u8]) -> (r: Result<MtlTransaction, MtlError>)
        ensures
            r matches Ok(t) ==> spec_from_bytes(bytes@) matches Ok(v) && t@ == v,
            r matches Err(e) ==> spec_from_bytes(bytes@) == Err::<TxView, MtlError>(e),
    {
        if bytes.len() < 4 {
            return Err(MtlError::Decode);
        }
        let tag = read_u32_at(bytes, 0);
        if tag == 0 {
            return Err(MtlError::DeprecatedTxVersion);
        }
        if tag != 2 {
            if tag == 1 || (3 <= tag && tag <= 9) {
                return Err(MtlError::UnsupportedTx);
            }
            return Err(MtlError::Decode);
        }
        let sigs = match adapters::parse_tx_signatures(bytes) {
            None => {
                return Err(MtlError::Decode);
            },
            Some(s) => s,
        };
        let (source, i) = match read_source(bytes) {
            None => {
                return Err(MtlError::Decode);
            },
            Some(p) => p,
        };
        if bytes.len() < 12 || i > bytes.len() - 12 {
            return Err(MtlError::Decode);
        }
        let fee = read_u32_at(bytes, i);
        let seq_num = signed_of_u64(read_u64_at(bytes, i + 4));
        let (time_bounds, end) = match read_cond(bytes, i + 12) {
            None => {
                return Err(MtlError::Decode);
            },
            Some(c) => c,
        };
        let sl = sig_section_length(&sigs);
        if sl > bytes.len() || end > bytes.len() - sl {
            return Err(MtlError::Decode);
        }
        let owned = copy_range(bytes, 0, bytes.len());
        proof {
            assert(owned@ =~= bytes@);
            assert(parse_front(bytes@) matches Some(f) && f.0 == source@ && f.1 == fee && f.2
                == seq_num && f.3 == time_bounds && f.4 + sig_section_len(sig_views(sigs@))
                <= bytes@.len());
        }
        let tx = MtlTransaction { bytes: owned, source, fee, seq_num, time_bounds, sigs };
        Ok(tx)
    }

    /// Returns the canonical binary encoding of the envelope.
    pub fn into_bytes(&self) -> (r: Vec<u8>)
        ensures
            r@ == self@.bytes,
    {
        copy_bytes(&self.bytes)
    }

    /// The canonical identifier of the transaction: the digest of the
    /// network-scoped signature payload. It depends on the transaction
    /// body and the network alone, never on the attached signatures.
    pub fn txid(&self) -> (r: Vec<u8>)
        ensures
            r@ == spec_txid(self@),
            r@.len() == 32,
    {
        proof {
            use_type_invariant(self);
        }
        let pp: &str = NETWORK_PASSPHRASE;
        let net = adapters::sha256(pp.as_bytes());
        let mut payload: Vec<u8> = Vec::new();
        append_bytes(&mut payload, net.as_slice());
        payload.push(0);
        payload.push(0);
        payload.push(0);
        payload.push(2);
        let sl = sig_section_length(&self.sigs);
        assert(sl <= self.bytes@.len());
        let body = copy_range(self.bytes.as_slice(), 4, self.bytes.len() - sl);
        append_bytes(&mut payload, body.as_slice());
        proof {
            assert(net@ == network_id());
            assert(payload@ =~= network_id() + seq![0u8, 0u8, 0u8, 2u8] + body_bytes(self@));
        }
        adapters::sha256(payload.as_slice())
    }

    /// The hints of the attached signatures, in attachment order.
    pub fn signatures(&self) -> (r: Vec<Vec<u8>>)
        ensures
            r.deep_view() == spec_hints(self@),
    {
        let mut out: Vec<Vec<u8>> = Vec::new();
        let n = self.sigs.len();
        let mut i: usize = 0;
        while i < n
            invariant
                n == self.sigs@.len(),
                0 <= i <= n,
                out@.len() == i,
                forall|j: int| 0 <= j < i ==> out@[j]@ == spec_hints(self@)[j],
            decreases n - i,
        {
            out.push(copy_bytes(&self.sigs[i].hint));
            proof {
                assert(spec_hints(self@)[i as int] == self.sigs@[i as int].hint@);
            }
            i = i + 1;
        }
        proof {
            assert(out.deep_view() =~~= spec_hints(self@));
        }
        out
    }

    /// The plain public key of the source account, or the
    /// wrong-source-account failure when the address form cannot be
    /// reduced to one.
    pub fn source_account(&self) -> (r: Result<Vec<u8>, MtlError>)
        ensures
            r matches Ok(k) ==> self@.source == SourceView::Ed25519(k@),
            r matches Err(e) ==> e == MtlError::WrongSourceAccount && self@.source
                == SourceView::Other,
    {
        match &self.source {
            TxSourceAccount::Ed25519(k) => Ok(copy_bytes(k)),
            TxSourceAccount::Other => Err(MtlError::WrongSourceAccount),
        }
    }
}

/// Whether a raw public key is one of the allow-listed
/// treasury-controlled accounts.
pub open spec fn in_allow_list(k: Seq<u8>) -> bool {
    ||| strkey_decode_of(MTL_FOUNDATION@) == Some(k)
    ||| strkey_decode_of(MTL_ISSUERER@) == Some(k)
    ||| strkey_decode_of(MTLCITY_ISSUERER@) == Some(k)
    ||| strkey_decode_of(BTC_TREASURY@) == Some(k)
    ||| strkey_decode_of(MTL_ADDITIONAL_ACCOUNT@) == Some(k)
    ||| strkey_decode_of(BTC_FOUNDATION@) == Some(k)
    ||| strkey_decode_of(MTL_RECT_ACCOUNT@) == Some(k)
}

/// Whether a source account is treasury-related: an allow-listed
/// account, or a signer with nonzero weight on the account's own signer
/// set. An address form that is no plain public key never qualifies.
pub open spec fn spec_is_mtl_source(a: AccountView, s: SourceView) -> bool {
    match s {
        SourceView::Other => false,
        SourceView::Ed25519(k) => in_allow_list(k) || exists|i: int|
            0 <= i < a.signers.len() && strkey_decode_of(#[trigger] a.signers[i].0) == Some(k)
                && a.signers[i].1 > 0,
    }
}

/// What the source-account guard returns.
pub open spec fn spec_guard_mtl_account(a: AccountView, s: SourceView) -> Result<(), MtlError> {
    if !all_keys_ok(a.signers) {
        Err(MtlError::UnsupportedSignerKey)
    } else if !spec_is_mtl_source(a, s) {
        Err(MtlError::WrongSourceAccount)
    } else {
        Ok(())
    }
}

/// Whether a declared fee lies within the configured inclusive bounds.
pub open spec fn spec_fee_ok(fee: u32) -> bool {
    MIN_FEE <= fee <= MAX_FEE
}

/// Whether the signing window that the time bounds leave open from
/// `now` on is sufficient: open-ended bounds always pass, and an upper
/// bound must lie at least the configured minimum window beyond both
/// `now` and the lower bound.
///
/// That a transaction with no bounds (or no upper bound) passes
/// indefinitely is a deliberate policy choice kept as-is: such an
/// envelope, once signed, could be held and published arbitrarily far
/// in the future.
pub open spec fn spec_time_window_ok(tb: Option<TimeBounds>, now: u64) -> bool {
    match tb {
        None => true,
        Some(b) => {
            if b.max_time == 0 {
                true
            } else {
                let adjusted = if now > b.min_time {
                    now as int
                } else {
                    b.min_time as int
                };
                b.max_time >= adjusted + SIGNING_TIME_WINDOW
            }
        },
    }
}

/// Tests whether a raw public key is allow-listed.
fn key_in_allow_list(k: &Vec<u8>) -> (r: bool)
    ensures
        r == in_allow_list(k@),
{
    let names: [&str; 7] = [
        MTL_FOUNDATION,
        MTL_ISSUERER,
        MTLCITY_ISSUERER,
        BTC_TREASURY,
        MTL_ADDITIONAL_ACCOUNT,
        BTC_FOUNDATION,
        MTL_RECT_ACCOUNT,
    ];
    let mut i: usize = 0;
    while i < 7
        invariant
            0 <= i <= 7,
            names@[0]@ == MTL_FOUNDATION@,
            names@[1]@ == MTL_ISSUERER@,
            names@[2]@ == MTLCITY_ISSUERER@,
            names@[3]@ == BTC_TREASURY@,
            names@[4]@ == MTL_ADDITIONAL_ACCOUNT@,
            names@[5]@ == BTC_FOUNDATION@,
            names@[6]@ == MTL_RECT_ACCOUNT@,
            forall|j: int| 0 <= j < i ==> strkey_decode_of(names@[j]@) != Some(k@),
        decreases 7 - i,
    {
        let name: &str = names[i];
        match crate::adapters::decode_public_key(name) {
            Some(ck) => {
                if bytes_eq(ck.as_slice(), k.as_slice()) {
                    return true;
                }
            },
            None => {},
        }
        i = i + 1;
    }
    false
}

/// The source-account guard: the source must be an allow-listed
/// treasury account or carry nonzero weight on the account's own signer
/// set.
pub fn is_mtl_account(mtl_account: &AccountResponse, source: &TxSourceAccount) -> (r: Result<
    bool,
    MtlError,
>)
    ensures
        r matches Ok(b) ==> all_keys_ok(mtl_account@.signers) && b == spec_is_mtl_source(
            mtl_account@,
            source@,
        ),
        r matches Err(e) ==> e == MtlError::UnsupportedSignerKey && !all_keys_ok(
            mtl_account@.signers,
        ),
{
    let signers = match get_mtl_signers(mtl_account) {
        Ok(s) => s,
        Err(e) => {
            return Err(e);
        },
    };
    let key = match source {
        TxSourceAccount::Ed25519(k) => k,
        TxSourceAccount::Other => {
            return Ok(false);
        },
    };
    proof {
        assert(source@ == SourceView::Ed25519(key@));
    }
    if key_in_allow_list(key) {
        return Ok(true);
    }
    let n = signers.len();
    proof {
        assert(pairs_view(signers@).len() == signers@.len());
        assert(resolved_signers(mtl_account@.signers).len() == mtl_account@.signers.len());
    }
    let mut i: usize = 0;
    while i < n
        invariant
            n == signers@.len(),
            0 <= i <= n,
            all_keys_ok(mtl_account@.signers),
            pairs_view(signers@) == resolved_signers(mtl_account@.signers),
            n == mtl_account@.signers.len(),
            source@ == SourceView::Ed25519(key@),
            forall|j: int|
                0 <= j < i ==> !(strkey_decode_of(#[trigger] mtl_account@.signers[j].0) == Some(
                    key@,
                ) && mtl_account@.signers[j].1 > 0),
        decreases n - i,
    {
        proof {
            assert(strkey_decode_of(mtl_account@.signers[i as int].0) is Some);
            assert(pairs_view(signers@)[i as int] == (signers@[i as int].0@, signers@[i as int].1));
            assert(resolved_signers(mtl_account@.signers)[i as int] == (
                strkey_decode_of(mtl_account@.signers[i as int].0).unwrap(),
                mtl_account@.signers[i as int].1,
            ));
        }
        if signers[i].1 > 0 && bytes_eq(signers[i].0.as_slice(), key.as_slice()) {
            proof {
                let wi = i as int;
                assert(signers@[wi].0@ == key@);
                assert(strkey_decode_of(mtl_account@.signers[wi].0) == Some(key@));
                assert(0 <= wi < mtl_account@.signers.len() && strkey_decode_of(
                    mtl_account@.signers[wi].0,
                ) == Some(key@) && mtl_account@.signers[wi].1 > 0);
                assert(exists|j: int|
                    0 <= j < mtl_account@.signers.len() && strkey_decode_of(
                        #[trigger] mtl_account@.signers[j].0,
                    ) == Some(key@) && mtl_account@.signers[j].1 > 0);
                assert(spec_is_mtl_source(mtl_account@, source@));
            }
            return Ok(true);
        }
        proof {
            assert(!(strkey_decode_of(mtl_account@.signers[i as int].0) == Some(key@)
                && mtl_account@.signers[i as int].1 > 0));
        }
        i = i + 1;
    }
    proof {
        assert(!spec_is_mtl_source(mtl_account@, source@));
    }
    Ok(false)
}

/// The composed source-account guard, failing with the
/// wrong-source-account kind when the source is not treasury-related.
pub fn guard_mtl_account(tx: &MtlTransaction, account: &AccountResponse) -> (r: Result<
    (),
    MtlError,
>)
    ensures
        r == spec_guard_mtl_account(account@, tx@.source),
{
    match is_mtl_account(account, &tx.source) {
        Ok(true) => Ok(()),
        Ok(false) => Err(MtlError::WrongSourceAccount),
        Err(e) => Err(e),
    }
}

/// The fee guard: the declared fee must lie within the configured
/// inclusive bounds.
pub fn guard_fee(tx: &MtlTransaction) -> (r: Result<(), MtlError>)
    ensures
        r is Ok <==> spec_fee_ok(tx@.fee),
        r matches Err(e) ==> e == MtlError::NonStandardFee,
{
    if tx.fee < MIN_FEE || tx.fee > MAX_FEE {
        return Err(MtlError::NonStandardFee);
    }
    Ok(())
}

impl MtlTransaction {
    /// The declared fee of the transaction.
    pub fn fee(&self) -> (r: u32)
        ensures
            r == self@.fee,
    {
        self.fee
    }

    /// The embedded sequence number of the transaction.
    pub fn sequence_number(&self) -> (r: i64)
        ensures
            r == self@.seq_num,
    {
        self.seq_num
    }

    /// The time bounds of the transaction, if it carries any.
    pub fn time_bounds(&self) -> (r: Option<TimeBounds>)
        ensures
            r == self@.time_bounds,
    {
        self.time_bounds
    }

    /// Whether the signing window that remains at time `now` is
    /// sufficient: a transaction without bounds or without an upper
    /// bound always passes; otherwise at least the configured minimum
    /// window must remain beyond `now` and the lower bound.
    pub fn has_time_window(&self, now: u64) -> (r: bool)
        ensures
            r == spec_time_window_ok(self@.time_bounds, now),
    {
        match &self.time_bounds {
            None => true,
            Some(b) => {
                if b.max_time == 0 {
                    return true;
                }
                let adjusted = if now > b.min_time {
                    now
                } else {
                    b.min_time
                };
                if b.max_time < adjusted {
                    return false;
                }
                b.max_time - adjusted >= SIGNING_TIME_WINDOW
            },
        }
    }

    /// The time-window guard, failing with the too-little-time kind
    /// when the remaining signing window is insufficient.
    pub fn guard_time_window(&self, now: u64) -> (r: Result<(), MtlError>)
        ensures
            r is Ok <==> spec_time_window_ok(self@.time_bounds, now),
            r matches Err(e) ==> e == MtlError::TooLittleTimeBound,
    {
        if !self.has_time_window(now) {
            return Err(MtlError::TooLittleTimeBound);
        }
        Ok(())
    }
}

/// The signature fingerprint of a raw public key: the last four bytes
/// of its canonical form. Distinct keys may share a fingerprint, which
/// is why a fingerprint match alone never authorizes anything.
pub open spec fn key_hint(k: Seq<u8>) -> Seq<u8>
    recommends
        k.len() == 32,
{
    k.subrange(28, 32)
}

/// Whether a signer record is picked up by a signature carrying hint
/// `h`: its fingerprint matches and it has voting power.
pub open spec fn hint_match(p: (Seq<u8>, i32), h: Seq<u8>) -> bool {
    key_hint(p.0) == h && p.1 > 0
}

/// The signer records of `avail` (in order) that a signature with hint
/// `h` picks up.
pub open spec fn matches_for(avail: Seq<(Seq<u8>, i32)>, h: Seq<u8>) -> Seq<(Seq<u8>, i32)>
    decreases avail.len(),
{
    if avail.len() == 0 {
        Seq::empty()
    } else {
        let rest = matches_for(avail.drop_last(), h);
        if hint_match(avail.last(), h) {
            rest.push(avail.last())
        } else {
            rest
        }
    }
}

/// The signer records of `avail` (in order) that a signature with hint
/// `h` leaves available.
pub open spec fn remaining_after(avail: Seq<(Seq<u8>, i32)>, h: Seq<u8>) -> Seq<(Seq<u8>, i32)>
    decreases avail.len(),
{
    if avail.len() == 0 {
        Seq::empty()
    } else {
        let rest = remaining_after(avail.drop_last(), h);
        if hint_match(avail.last(), h) {
            rest
        } else {
            rest.push(avail.last())
        }
    }
}

/// The signer records counted towards the threshold, in the order their
/// signatures were accumulated on the envelope: each attached hint, in
/// attachment order, picks up every still-available signer whose
/// fingerprint matches and whose weight is nonzero; a signer is counted
/// at most once.
pub open spec fn signed_seq(hints: Seq<Seq<u8>>, avail: Seq<(Seq<u8>, i32)>) -> Seq<
    (Seq<u8>, i32),
>
    decreases hints.len(),
{
    if hints.len() == 0 {
        Seq::empty()
    } else {
        matches_for(avail, hints.first()) + signed_seq(
            hints.drop_first(),
            remaining_after(avail, hints.first()),
        )
    }
}

/// The total weight of a sequence of signer records.
pub open spec fn sum_weights(s: Seq<(Seq<u8>, i32)>) -> int
    decreases s.len(),
{
    if s.len() == 0 {
        0
    } else {
        sum_weights(s.drop_last()) + s.last().1
    }
}

/// The excess-signature rule: walking the accumulated signers in order,
/// some signer finds the running total already at the threshold while
/// adding its weight would keep it there — that signature is redundant
/// and the envelope is over-signed.
pub open spec fn spec_excess(signed: Seq<(Seq<u8>, i32)>, required: int) -> bool {
    exists|i: int|
        0 <= i < signed.len() && sum_weights(signed.take(i)) >= required && sum_weights(
            signed.take(i),
        ) + (#[trigger] signed[i]).1 >= required
}

/// The accumulated signer records of a transaction against an account.
pub open spec fn spec_signed_records(v: TxView, a: AccountView) -> Seq<(Seq<u8>, i32)>
    recommends
        all_keys_ok(a.signers),
{
    signed_seq(spec_hints(v), resolved_signers(a.signers))
}

/// Whether a transaction is over-signed against an account.
pub open spec fn spec_excess_of(v: TxView, a: AccountView) -> bool
    recommends
        all_keys_ok(a.signers),
{
    spec_excess(spec_signed_records(v, a), a.high_threshold as int)
}

/// What the excess-signature guard returns.
pub open spec fn spec_guard_excess(v: TxView, a: AccountView) -> Result<(), MtlError> {
    if !all_keys_ok(a.signers) {
        Err(MtlError::UnsupportedSignerKey)
    } else if spec_excess_of(v, a) {
        Err(MtlError::SignaturesExcess)
    } else {
        Ok(())
    }
}

/// The collected weight of a transaction against an account: the total
/// weight of the accumulated signers.
pub open spec fn spec_collected(v: TxView, a: AccountView) -> int
    recommends
        all_keys_ok(a.signers),
{
    sum_weights(spec_signed_records(v, a))
}

/// Whether attached signature `i` verifies: some signer key with a
/// matching fingerprint validates the 64-byte signature over the
/// transaction's identifier.
pub open spec fn spec_sig_ok(v: TxView, keys: Seq<(Seq<u8>, i32)>, i: int) -> bool {
    exists|j: int|
        0 <= j < keys.len() && key_hint((#[trigger] keys[j]).0) == v.sigs[i].0 && v.sigs[i].1.len()
            == 64 && sig_valid_of(keys[j].0, spec_txid(v), v.sigs[i].1)
}

/// The signer records of the account, in signer order, whose
/// fingerprint matches some attached signature. All weights are kept:
/// what faces the user or the threshold is decided by the caller.
pub open spec fn spec_signed_keys(v: TxView, signers: Seq<(Seq<char>, i32)>) -> Seq<
    (Seq<u8>, i32),
>
    recommends
        all_keys_ok(signers),
    decreases signers.len(),
{
    if signers.len() == 0 {
        Seq::empty()
    } else {
        let rest = spec_signed_keys(v, signers.drop_last());
        let key = strkey_decode_of(signers.last().0).unwrap();
        if spec_hints(v).contains(key_hint(key)) {
            rest.push((key, signers.last().1))
        } else {
            rest
        }
    }
}

/// Whether every attached signature verifies against some signer key.
pub open spec fn all_sigs_valid(v: TxView, keys: Seq<(Seq<u8>, i32)>) -> bool {
    forall|i: int| 0 <= i < v.sigs.len() ==> spec_sig_ok(v, keys, i)
}

/// A hint picks up and leaves available exactly the signers it finds:
/// the two parts partition the available set, matched signers have
/// nonzero weight, and weight bounds carry over.
pub proof fn lemma_partition(avail: Seq<(Seq<u8>, i32)>, h: Seq<u8>)
    requires
        forall|i: int| 0 <= i < avail.len() ==> 0 <= (#[trigger] avail[i]).1 <= 255,
    ensures
        matches_for(avail, h).len() + remaining_after(avail, h).len() == avail.len(),
        forall|i: int|
            0 <= i < matches_for(avail, h).len() ==> 1 <= (#[trigger] matches_for(avail, h)[i]).1
                <= 255,
        forall|i: int|
            0 <= i < remaining_after(avail, h).len() ==> 0 <= (#[trigger] remaining_after(
                avail,
                h,
            )[i]).1 <= 255,
    decreases avail.len(),
{
    if avail.len() > 0 {
        assert(forall|i: int|
            0 <= i < avail.drop_last().len() ==> 0 <= (#[trigger] avail.drop_last()[i]).1 <= 255);
        lemma_partition(avail.drop_last(), h);
    }
}

/// The accumulated signers are no more numerous than the available
/// ones, each has nonzero weight, and weight bounds carry over.
pub proof fn lemma_signed_seq_bounds(hints: Seq<Seq<u8>>, avail: Seq<(Seq<u8>, i32)>)
    requires
        forall|i: int| 0 <= i < avail.len() ==> 0 <= (#[trigger] avail[i]).1 <= 255,
    ensures
        signed_seq(hints, avail).len() <= avail.len(),
        forall|i: int|
            0 <= i < signed_seq(hints, avail).len() ==> 1 <= (#[trigger] signed_seq(
                hints,
                avail,
            )[i]).1 <= 255,
    decreases hints.len(),
{
    if hints.len() > 0 {
        lemma_partition(avail, hints.first());
        lemma_signed_seq_bounds(hints.drop_first(), remaining_after(avail, hints.first()));
    }
}

/// Extracts the fingerprint of a raw public key.
fn key_hint_bytes(k: &Vec<u8>) -> (r: Vec<u8>)
    requires
        k@.len() == 32,
    ensures
        r@ == key_hint(k@),
{
    copy_range(k.as_slice(), 28, 32)
}

impl MtlTransaction {
    /// Whether the envelope carries a signature with the given hint.
    pub fn has_hint(&self, h: &Vec<u8>) -> (r: bool)
        ensures
            r == spec_hints(self@).contains(h@),
    {
        let n = self.sigs.len();
        let mut i: usize = 0;
        while i < n
            invariant
                n == self.sigs@.len(),
                0 <= i <= n,
                forall|j: int| 0 <= j < i ==> spec_hints(self@)[j] != h@,
            decreases n - i,
        {
            proof {
                assert(spec_hints(self@)[i as int] == self.sigs@[i as int].hint@);
            }
            if bytes_eq(self.sigs[i].hint.as_slice(), h.as_slice()) {
                return true;
            }
            i = i + 1;
        }
        proof {
            assert forall|j: int| 0 <= j < spec_hints(self@).len() implies spec_hints(self@)[j]
                != h@ by {}
            assert(!spec_hints(self@).contains(h@));
        }
        false
    }

    /// The accumulated signer records: each attached signature, in
    /// attachment order, picks up every still-available signer whose
    /// fingerprint matches and whose weight is nonzero.
    fn signed_in_attachment_order(&self, keys: &Vec<(Vec<u8>, i32)>) -> (r: Vec<(Vec<u8>, i32)>)
        requires
            forall|i: int| 0 <= i < keys@.len() ==> (#[trigger] keys@[i]).0@.len() == 32,
        ensures
            pairs_view(r@) == signed_seq(spec_hints(self@), pairs_view(keys@)),
    {
        let ghost ghints = spec_hints(self@);
        let ghost gkeys = pairs_view(keys@);
        let mut avail: Vec<(Vec<u8>, i32)> = Vec::new();
        let nk = keys.len();
        let mut t: usize = 0;
        while t < nk
            invariant
                nk == keys@.len(),
                0 <= t <= nk,
                forall|i: int| 0 <= i < keys@.len() ==> (#[trigger] keys@[i]).0@.len() == 32,
                avail@.len() == t,
                forall|j: int|
                    0 <= j < t ==> (#[trigger] avail@[j]).0@ == keys@[j].0@ && avail@[j].1
                        == keys@[j].1,
            decreases nk - t,
        {
            avail.push((copy_bytes(&keys[t].0), keys[t].1));
            t = t + 1;
        }
        proof {
            assert(pairs_view(avail@) =~= gkeys);
        }
        let mut out: Vec<(Vec<u8>, i32)> = Vec::new();
        let n = self.sigs.len();
        proof {
            assert(ghints.skip(0) =~= ghints);
            assert(pairs_view(out@) =~= Seq::<(Seq<u8>, i32)>::empty());
            assert(pairs_view(out@) + signed_seq(ghints, gkeys) =~= signed_seq(ghints, gkeys));
        }
        let mut i: usize = 0;
        while i < n
            invariant
                n == self.sigs@.len(),
                0 <= i <= n,
                ghints == spec_hints(self@),
                gkeys == pairs_view(keys@),
                ghints.len() == n,
                forall|j: int| 0 <= j < avail@.len() ==> (#[trigger] avail@[j]).0@.len() == 32,
                pairs_view(out@) + signed_seq(ghints.skip(i as int), pairs_view(avail@))
                    == signed_seq(ghints, gkeys),
            decreases n - i,
        {
            let ghost avail_view = pairs_view(avail@);
            let mut matched: Vec<(Vec<u8>, i32)> = Vec::new();
            let mut rest: Vec<(Vec<u8>, i32)> = Vec::new();
            let m = avail.len();
            let mut j: usize = 0;
            while j < m
                invariant
                    m == avail@.len(),
                    0 <= j <= m,
                    avail_view == pairs_view(avail@),
                    ghints == spec_hints(self@),
                    i < n == self.sigs@.len(),
                    n == ghints.len(),
                    forall|q: int| 0 <= q < avail@.len() ==> (#[trigger] avail@[q]).0@.len() == 32,
                    pairs_view(matched@) == matches_for(avail_view.take(j as int), ghints[i as int]),
                    pairs_view(rest@) == remaining_after(
                        avail_view.take(j as int),
                        ghints[i as int],
                    ),
                    forall|q: int| 0 <= q < matched@.len() ==> (#[trigger] matched@[q]).0@.len()
                        == 32,
                    forall|q: int| 0 <= q < rest@.len() ==> (#[trigger] rest@[q]).0@.len() == 32,
                decreases m - j,
            {
                proof {
                    assert(spec_hints(self@)[i as int] == self.sigs@[i as int].hint@);
                    assert(avail_view[j as int] == (avail@[j as int].0@, avail@[j as int].1));
                    assert(avail_view.take(j + 1).drop_last() =~= avail_view.take(j as int));
                    assert(avail_view.take(j + 1).last() == avail_view[j as int]);
                }
                let kh = key_hint_bytes(&avail[j].0);
                let w = avail[j].1;
                let hit = w > 0 && bytes_eq(kh.as_slice(), self.sigs[i].hint.as_slice());
                proof {
                    assert(hit == hint_match(avail_view[j as int], ghints[i as int]));
                }
                if hit {
                    matched.push((copy_bytes(&avail[j].0), w));
                    proof {
                        assert(pairs_view(matched@) =~= matches_for(
                            avail_view.take(j + 1),
                            ghints[i as int],
                        ));
                        assert(pairs_view(rest@) =~= remaining_after(
                            avail_view.take(j + 1),
                            ghints[i as int],
                        ));
                    }
                } else {
                    rest.push((copy_bytes(&avail[j].0), w));
                    proof {
                        assert(pairs_view(matched@) =~= matches_for(
                            avail_view.take(j + 1),
                            ghints[i as int],
                        ));
                        assert(pairs_view(rest@) =~= remaining_after(
                            avail_view.take(j + 1),
                            ghints[i as int],
                        ));
                    }
                }
                j = j + 1;
            }
            proof {
                assert(avail_view.take(m as int) =~= avail_view);
                assert(ghints.skip(i as int).first() == ghints[i as int]);
                assert(ghints.skip(i as int).drop_first() =~= ghints.skip(i + 1));
                assert(signed_seq(ghints.skip(i as int), avail_view) == matches_for(
                    avail_view,
                    ghints[i as int],
                ) + signed_seq(ghints.skip(i + 1), remaining_after(avail_view, ghints[i as int])));
            }
            let ghost out_before = pairs_view(out@);
            out.append(&mut matched);
            avail = rest;
            proof {
                assert(pairs_view(out@) =~= out_before + matches_for(
                    avail_view,
                    ghints[i as int],
                ));
                assert(pairs_view(out@) + signed_seq(ghints.skip(i + 1), pairs_view(avail@))
                    =~= out_before + signed_seq(ghints.skip(i as int), avail_view));
            }
            i = i + 1;
        }
        proof {
            assert(ghints.skip(n as int) =~= Seq::<Seq<u8>>::empty());
            assert(signed_seq(ghints.skip(n as int), pairs_view(avail@)) =~= Seq::<
                (Seq<u8>, i32),
            >::empty());
            assert(pairs_view(out@) + signed_seq(ghints.skip(n as int), pairs_view(avail@))
                =~= pairs_view(out@));
        }
        out
    }

    /// The signer records of the account, in signer order, that have a
    /// signature attached to the envelope, matched by fingerprint.
    /// Fingerprint collisions are possible, which is why matches are
    /// cryptographically verified before anything is trusted.
    pub fn get_signed_keys(&self, account: &AccountResponse) -> (r: Result<
        Vec<(Vec<u8>, i32)>,
        MtlError,
    >)
        ensures
            r matches Ok(v) ==> all_keys_ok(account@.signers) && pairs_view(v@)
                == spec_signed_keys(self@, account@.signers),
            r matches Err(e) ==> e == MtlError::UnsupportedSignerKey && !all_keys_ok(
                account@.signers,
            ),
    {
        let keys = match get_mtl_signers(account) {
            Ok(k) => k,
            Err(e) => {
                return Err(e);
            },
        };
        let ghost gkeys = pairs_view(keys@);
        let ghost gsigners = account@.signers;
        proof {
            assert(gkeys == resolved_signers(gsigners));
            assert(gkeys.len() == gsigners.len());
        }
        let mut out: Vec<(Vec<u8>, i32)> = Vec::new();
        let n = keys.len();
        let mut i: usize = 0;
        while i < n
            invariant
                n == keys@.len(),
                0 <= i <= n,
                all_keys_ok(gsigners),
                gsigners == account@.signers,
                gkeys == pairs_view(keys@),
                gkeys == resolved_signers(gsigners),
                n == gsigners.len(),
                forall|q: int| 0 <= q < keys@.len() ==> (#[trigger] keys@[q]).0@.len() == 32,
                pairs_view(out@) == spec_signed_keys(self@, gsigners.take(i as int)),
            decreases n - i,
        {
            proof {
                assert(gkeys[i as int] == (keys@[i as int].0@, keys@[i as int].1));
                assert(gkeys[i as int] == (
                    strkey_decode_of(gsigners[i as int].0).unwrap(),
                    gsigners[i as int].1,
                ));
                assert(gsigners.take(i + 1).drop_last() =~= gsigners.take(i as int));
                assert(gsigners.take(i + 1).last() == gsigners[i as int]);
            }
            let kh = key_hint_bytes(&keys[i].0);
            if self.has_hint(&kh) {
                out.push((copy_bytes(&keys[i].0), keys[i].1));
                proof {
                    assert(pairs_view(out@) =~= spec_signed_keys(self@, gsigners.take(i + 1)));
                }
            } else {
                proof {
                    assert(pairs_view(out@) =~= spec_signed_keys(self@, gsigners.take(i + 1)));
                }
            }
            i = i + 1;
        }
        proof {
            assert(gsigners.take(n as int) =~= gsigners);
        }
        Ok(out)
    }

    /// Cryptographic verification of every attached signature: each one
    /// must be a valid 64-byte ed25519 signature over the transaction's
    /// identifier by some signer key whose fingerprint matches its
    /// hint. A fingerprint match alone is never trusted.
    pub fn check_signatures(&self, keys: &Vec<(Vec<u8>, i32)>) -> (r: bool)
        requires
            forall|i: int| 0 <= i < keys@.len() ==> (#[trigger] keys@[i]).0@.len() == 32,
        ensures
            r == all_sigs_valid(self@, pairs_view(keys@)),
    {
        let tid = self.txid();
        let n = self.sigs.len();
        let mut i: usize = 0;
        while i < n
            invariant
                n == self.sigs@.len(),
                0 <= i <= n,
                tid@ == spec_txid(self@),
                forall|q: int| 0 <= q < keys@.len() ==> (#[trigger] keys@[q]).0@.len() == 32,
                forall|q: int| 0 <= q < i ==> spec_sig_ok(self@, pairs_view(keys@), q),
            decreases n - i,
        {
            if self.sigs[i].signature.len() != 64 {
                proof {
                    assert(self@.sigs[i as int].1 == self.sigs@[i as int].signature@);
                    assert(!spec_sig_ok(self@, pairs_view(keys@), i as int));
                }
                return false;
            }
            let m = keys.len();
            let mut j: usize = 0;
            let mut found = false;
            while j < m && !found
                invariant
                    m == keys@.len(),
                    0 <= j <= m,
                    i < n == self.sigs@.len(),
                    tid@ == spec_txid(self@),
                    self.sigs@[i as int].signature@.len() == 64,
                    forall|q: int| 0 <= q < keys@.len() ==> (#[trigger] keys@[q]).0@.len() == 32,
                    found ==> spec_sig_ok(self@, pairs_view(keys@), i as int),
                    !found ==> forall|q: int|
                        0 <= q < j ==> !(key_hint((#[trigger] pairs_view(keys@)[q]).0)
                            == self@.sigs[i as int].0 && sig_valid_of(
                            pairs_view(keys@)[q].0,
                            spec_txid(self@),
                            self@.sigs[i as int].1,
                        )),
                decreases m - j + (if found {
                    0int
                } else {
                    1int
                }),
            {
                proof {
                    assert(pairs_view(keys@)[j as int] == (keys@[j as int].0@, keys@[j as int].1));
                    assert(self@.sigs[i as int] == (
                        self.sigs@[i as int].hint@,
                        self.sigs@[i as int].signature@,
                    ));
                }
                let kh = key_hint_bytes(&keys[j].0);
                if bytes_eq(kh.as_slice(), self.sigs[i].hint.as_slice()) {
                    if crate::adapters::verify_sig(
                        keys[j].0.as_slice(),
                        tid.as_slice(),
                        self.sigs[i].signature.as_slice(),
                    ) {
                        found = true;
                        proof {
                            let wj = j as int;
                            assert(0 <= wj < pairs_view(keys@).len() && key_hint(
                                pairs_view(keys@)[wj].0,
                            ) == self@.sigs[i as int].0 && self@.sigs[i as int].1.len() == 64
                                && sig_valid_of(
                                pairs_view(keys@)[wj].0,
                                spec_txid(self@),
                                self@.sigs[i as int].1,
                            ));
                            assert(spec_sig_ok(self@, pairs_view(keys@), i as int));
                        }
                    }
                }
                if !found {
                    j = j + 1;
                }
            }
            if !found {
                proof {
                    assert(!spec_sig_ok(self@, pairs_view(keys@), i as int));
                }
                return false;
            }
            i = i + 1;
        }
        true
    }

    /// The excess-signature guard: walking the accumulated signers in
    /// attachment order, no signature may find the threshold already
    /// met. The same minimality rule governs creation and amendment.
    pub fn guard_excess_signatures(&self, account: &AccountResponse) -> (r: Result<(), MtlError>)
        requires
            account_wf(account@),
        ensures
            r == spec_guard_excess(self@, account@),
    {
        let keys = match get_mtl_signers(account) {
            Ok(k) => k,
            Err(e) => {
                return Err(e);
            },
        };
        proof {
            assert(pairs_view(keys@) == resolved_signers(account@.signers));
            assert(forall|i: int|
                0 <= i < pairs_view(keys@).len() ==> 0 <= (#[trigger] pairs_view(keys@)[i]).1
                    <= 255) by {
                assert(forall|i: int|
                    0 <= i < resolved_signers(account@.signers).len() ==> (#[trigger] resolved_signers(
                        account@.signers,
                    )[i]).1 == account@.signers[i].1);
            }
            lemma_signed_seq_bounds(spec_hints(self@), pairs_view(keys@));
        }
        let signed = self.signed_in_attachment_order(&keys);
        let ghost gs = spec_signed_records(self@, account@);
        let required = account.high_threshold as i32;
        let n = signed.len();
        let mut accum: i32 = 0;
        let mut i: usize = 0;
        while i < n
            invariant
                n == signed@.len(),
                0 <= i <= n,
                gs == pairs_view(signed@),
                gs == spec_signed_records(self@, account@),
                all_keys_ok(account@.signers),
                gs.len() <= 20,
                forall|q: int| 0 <= q < gs.len() ==> 1 <= (#[trigger] gs[q]).1 <= 255,
                accum == sum_weights(gs.take(i as int)),
                0 <= accum <= 255 * i,
                required == account@.high_threshold as i32,
                forall|q: int|
                    0 <= q < i ==> !(sum_weights(gs.take(q)) >= required && sum_weights(
                        gs.take(q),
                    ) + (#[trigger] gs[q]).1 >= required),
            decreases n - i,
        {
            proof {
                assert(gs[i as int] == (signed@[i as int].0@, signed@[i as int].1));
                assert(gs.take(i + 1).drop_last() =~= gs.take(i as int));
                assert(gs.take(i + 1).last() == gs[i as int]);
            }
            let w = signed[i].1;
            if accum >= required && accum + w >= required {
                proof {
                    let wi = i as int;
                    assert(0 <= wi < gs.len() && sum_weights(gs.take(wi)) >= required
                        && sum_weights(gs.take(wi)) + gs[wi].1 >= required);
                    assert(spec_excess(gs, account@.high_threshold as int));
                }
                return Err(MtlError::SignaturesExcess);
            }
            accum = accum + w;
            i = i + 1;
        }
        proof {
            assert(!spec_excess(gs, account@.high_threshold as int));
        }
        Ok(())
    }

    /// The total weight collected by the accumulated signers, for
    /// publication-readiness reporting.
    pub fn collected_weight(&self, account: &AccountResponse) -> (r: Result<i32, MtlError>)
        requires
            account_wf(account@),
        ensures
            r matches Ok(w) ==> all_keys_ok(account@.signers) && w == spec_collected(
                self@,
                account@,
            ),
            r matches Err(e) ==> e == MtlError::UnsupportedSignerKey && !all_keys_ok(
                account@.signers,
            ),
    {
        let keys = match get_mtl_signers(account) {
            Ok(k) => k,
            Err(e) => {
                return Err(e);
            },
        };
        proof {
            assert(pairs_view(keys@) == resolved_signers(account@.signers));
            assert(forall|i: int|
                0 <= i < pairs_view(keys@).len() ==> 0 <= (#[trigger] pairs_view(keys@)[i]).1
                    <= 255) by {
                assert(forall|i: int|
                    0 <= i < resolved_signers(account@.signers).len() ==> (#[trigger] resolved_signers(
                        account@.signers,
                    )[i]).1 == account@.signers[i].1);
            }
            lemma_signed_seq_bounds(spec_hints(self@), pairs_view(keys@));
        }
        let signed = self.signed_in_attachment_order(&keys);
        let ghost gs = spec_signed_records(self@, account@);
        let n = signed.len();
        let mut accum: i32 = 0;
        let mut i: usize = 0;
        while i < n
            invariant
                n == signed@.len(),
                0 <= i <= n,
                gs == pairs_view(signed@),
                gs.len() <= 20,
                forall|q: int| 0 <= q < gs.len() ==> 1 <= (#[trigger] gs[q]).1 <= 255,
                accum == sum_weights(gs.take(i as int)),
                0 <= accum <= 255 * i,
            decreases n - i,
        {
            proof {
                assert(gs[i as int] == (signed@[i as int].0@, signed@[i as int].1));
                assert(gs.take(i + 1).drop_last() =~= gs.take(i as int));
                assert(gs.take(i + 1).last() == gs[i as int]);
            }
            accum = accum + signed[i].1;
            i = i + 1;
        }
        proof {
            assert(gs.take(n as int) =~= gs);
        }
        Ok(accum)
    }

    /// Publication readiness: whether the collected weight meets the
    /// account's required threshold. Falling short is an expected state
    /// while signatures are being collected, reported as data.
    pub fn is_publication_ready(&self, account: &AccountResponse) -> (r: Result<bool, MtlError>)
        requires
            account_wf(account@),
        ensures
            r matches Ok(b) ==> all_keys_ok(account@.signers) && b == (spec_collected(
                self@,
                account@,
            ) >= account@.high_threshold as int),
            r matches Err(e) ==> e == MtlError::UnsupportedSignerKey && !all_keys_ok(
                account@.signers,
            ),
    {
        let w = match self.collected_weight(account) {
            Ok(w) => w,
            Err(e) => {
                return Err(e);
            },
        };
        Ok(w >= account.high_threshold as i32)
    }
}

/// What the policy stage of create-time validation returns, in guard
/// order: source account, fee, time window. These guards need the
/// account's live policy but no further ledger queries.
pub open spec fn spec_validate_policies(v: TxView, a: AccountView, now: u64) -> Result<
    (),
    MtlError,
> {
    if !all_keys_ok(a.signers) {
        Err(MtlError::UnsupportedSignerKey)
    } else if !spec_is_mtl_source(a, v.source) {
        Err(MtlError::WrongSourceAccount)
    } else if !spec_fee_ok(v.fee) {
        Err(MtlError::NonStandardFee)
    } else if !spec_time_window_ok(v.time_bounds, now) {
        Err(MtlError::TooLittleTimeBound)
    } else {
        Ok(())
    }
}

/// What the sequence-and-signature stage of create-time validation
/// returns, in guard order: sequence freshness, cryptographic
/// verification of every attached signature, the excess-signature rule.
pub open spec fn spec_validate_rest(v: TxView, a: AccountView, live_seq: i64) -> Result<
    (),
    MtlError,
> {
    if live_seq > v.seq_num {
        Err(MtlError::SequenceNumber)
    } else if !all_keys_ok(a.signers) {
        Err(MtlError::UnsupportedSignerKey)
    } else if !all_sigs_valid(v, resolved_signers(a.signers)) {
        Err(MtlError::InvalidSignature)
    } else if spec_excess_of(v, a) {
        Err(MtlError::SignaturesExcess)
    } else {
        Ok(())
    }
}

/// What create-time validation returns: the first failure in guard
/// order, or success. Success admits an under-signed transaction —
/// collecting further signatures is the very purpose of the service —
/// but never a malformed, unauthorized or over-signed one.
pub open spec fn spec_validate_create(v: TxView, a: AccountView, live_seq: i64, now: u64) -> Result<
    (),
    MtlError,
> {
    match spec_validate_policies(v, a, now) {
        Err(e) => Err(e),
        Ok(_) => spec_validate_rest(v, a, live_seq),
    }
}

/// Whether every signature hint of `a` also appears on `b`: amendments
/// are strictly additive.
pub open spec fn hint_subset(a: TxView, b: TxView) -> bool {
    forall|i: int| 0 <= i < a.sigs.len() ==> spec_hints(b).contains(#[trigger] spec_hints(a)[i])
}

/// What update-time validation returns: an amendment must keep the
/// canonical identifier (signatures only, never content), must keep
/// every already-attached signature, and must not leave the envelope
/// over-signed. Additional signatures are otherwise the expected
/// behavior of an amendment.
pub open spec fn spec_validate_update(stored: TxView, upd: TxView, a: AccountView) -> Result<
    (),
    MtlError,
> {
    if spec_txid(stored) != spec_txid(upd) {
        Err(MtlError::UpdateContentChanged)
    } else if !hint_subset(stored, upd) {
        Err(MtlError::UpdateSignatureRemoved)
    } else if !all_keys_ok(a.signers) {
        Err(MtlError::UnsupportedSignerKey)
    } else if spec_excess_of(upd, a) {
        Err(MtlError::SignaturesExcess)
    } else {
        Ok(())
    }
}

impl MtlTransaction {
    /// The policy stage of create-time validation: source-account
    /// guard, fee guard and time-window guard, in that order, against
    /// the account's live policy. A failure here is terminal and no
    /// further ledger query is needed.
    pub fn validate_create_policies(&self, account: &AccountResponse, now: u64) -> (r: Result<
        (),
        MtlError,
    >)
        ensures
            r == spec_validate_policies(self@, account@, now),
    {
        match guard_mtl_account(self, account) {
            Err(e) => {
                return Err(e);
            },
            Ok(_) => {},
        }
        match guard_fee(self) {
            Err(e) => {
                return Err(e);
            },
            Ok(_) => {},
        }
        match self.guard_time_window(now) {
            Ok(_) => Ok(()),
            Err(e) => Err(e),
        }
    }

    /// The sequence-and-signature stage of create-time validation:
    /// sequence freshness against the live sequence number, then
    /// cryptographic verification of every attached signature, then
    /// the excess-signature rule.
    pub fn validate_create_with_sequence(
        &self,
        account: &AccountResponse,
        live_seq: i64,
    ) -> (r: Result<(), MtlError>)
        requires
            account_wf(account@),
        ensures
            r == spec_validate_rest(self@, account@, live_seq),
    {
        if live_seq > self.seq_num {
            return Err(MtlError::SequenceNumber);
        }
        let keys = match get_mtl_signers(account) {
            Ok(k) => k,
            Err(e) => {
                return Err(e);
            },
        };
        if !self.check_signatures(&keys) {
            return Err(MtlError::InvalidSignature);
        }
        match self.guard_excess_signatures(account) {
            Ok(_) => Ok(()),
            Err(e) => Err(e),
        }
    }

    /// Create-time validation: both stages in guard order, against the
    /// account policy, live sequence number and wall-clock time that
    /// the caller fetched for this call.
    pub fn validate_create(
        &self,
        account: &AccountResponse,
        live_seq: i64,
        now: u64,
    ) -> (r: Result<(), MtlError>)
        requires
            account_wf(account@),
        ensures
            r == spec_validate_create(self@, account@, live_seq, now),
    {
        match self.validate_create_policies(account, now) {
            Err(e) => {
                return Err(e);
            },
            Ok(_) => {},
        }
        match self.validate_create_with_sequence(account, live_seq) {
            Ok(_) => Ok(()),
            Err(e) => Err(e),
        }
    }

    /// Update-time validation of an amendment `update` against the
    /// stored transaction `self`: identifiers must match, no signature
    /// may be dropped, and the amended envelope must not be
    /// over-signed.
    pub fn validate_update(&self, update: &MtlTransaction, account: &AccountResponse) -> (r: Result<
        (),
        MtlError,
    >)
        requires
            account_wf(account@),
        ensures
            r == spec_validate_update(self@, update@, account@),
    {
        let my_id = self.txid();
        let up_id = update.txid();
        if !bytes_eq(my_id.as_slice(), up_id.as_slice()) {
            return Err(MtlError::UpdateContentChanged);
        }
        let n = self.sigs.len();
        let mut i: usize = 0;
        while i < n
            invariant
                n == self.sigs@.len(),
                0 <= i <= n,
                spec_txid(self@) == spec_txid(update@),
                forall|j: int|
                    0 <= j < i ==> spec_hints(update@).contains(#[trigger] spec_hints(self@)[j]),
            decreases n - i,
        {
            proof {
                assert(spec_hints(self@)[i as int] == self.sigs@[i as int].hint@);
            }
            if !update.has_hint(&self.sigs[i].hint) {
                proof {
                    assert(!hint_subset(self@, update@));
                }
                return Err(MtlError::UpdateSignatureRemoved);
            }
            i = i + 1;
        }
        proof {
            assert(hint_subset(self@, update@));
        }
        match update.guard_excess_signatures(account) {
            Ok(_) => Ok(()),
            Err(e) => Err(e),
        }
    }
}

/// The characters that a sequence of ASCII bytes displays as.
pub open spec fn ascii_chars_of(b: Seq<u8>) -> Seq<char> {
    b.map_values(|x: u8| x as char)
}

/// What decoding an envelope from its base64 text form yields.
pub open spec fn spec_parse_text(s: Seq<u8>) -> Result<TxView, MtlError> {
    match crate::base64::b64_decode(s) {
        None => Err(MtlError::Decode),
        Some(b) => spec_from_bytes(b),
    }
}

/// Decodes a transaction envelope from its base64 text form (given as
/// ASCII bytes), rejecting text that is not a canonical encoding, the
/// legacy envelope version and unsupported envelope types.
pub fn parse_mtl_tx(raw: &[u8]) -> (r: Result<MtlTransaction, MtlError>)
    ensures
        r matches Ok(t) ==> spec_parse_text(raw@) matches Ok(v) && t@ == v,
        r matches Err(e) ==> spec_parse_text(raw@) == Err::<TxView, MtlError>(e),
{
    let bytes = match crate::base64::base64_decode(raw) {
        None => {
            return Err(MtlError::Decode);
        },
        Some(b) => b,
    };
    MtlTransaction::from_bytes(bytes.as_slice())
}

/// Decodes and fully validates a raw transaction in one call, against
/// the account policy, live sequence number and wall-clock time the
/// caller fetched: the first failure in decode-then-guard order, or the
/// validated transaction.
pub fn validate_mtl_tx(
    raw: &[u8],
    account: &AccountResponse,
    live_seq: i64,
    now: u64,
) -> (r: Result<MtlTransaction, MtlError>)
    requires
        account_wf(account@),
    ensures
        r matches Ok(t) ==> spec_parse_text(raw@) matches Ok(v) && t@ == v && spec_validate_create(
            v,
            account@,
            live_seq,
            now,
        ) is Ok,
        r matches Err(e) ==> spec_parse_text(raw@) == Err::<TxView, MtlError>(e)
            || (spec_parse_text(raw@) matches Ok(v) && spec_validate_create(
            v,
            account@,
            live_seq,
            now,
        ) == Err::<(), MtlError>(e)),
{
    let tx = match parse_mtl_tx(raw) {
        Ok(t) => t,
        Err(e) => {
            return Err(e);
        },
    };
    match tx.validate_create(account, live_seq, now) {
        Ok(_) => Ok(tx),
        Err(e) => Err(e),
    }
}

impl MtlTransaction {
    /// An owned copy of the transaction.
    pub fn duplicate(&self) -> (r: MtlTransaction)
        ensures
            r@ == self@,
    {
        proof {
            use_type_invariant(self);
        }
        let source = match &self.source {
            TxSourceAccount::Ed25519(k) => TxSourceAccount::Ed25519(copy_bytes(k)),
            TxSourceAccount::Other => TxSourceAccount::Other,
        };
        let mut sigs: Vec<SigEntry> = Vec::new();
        let n = self.sigs.len();
        let mut i: usize = 0;
        while i < n
            invariant
                n == self.sigs@.len(),
                0 <= i <= n,
                sigs@.len() == i,
                forall|j: int|
                    0 <= j < i ==> (#[trigger] sigs@[j]).hint@ == self.sigs@[j].hint@
                        && sigs@[j].signature@ == self.sigs@[j].signature@,
            decreases n - i,
        {
            sigs.push(
                SigEntry {
                    hint: copy_bytes(&self.sigs[i].hint),
                    signature: copy_bytes(&self.sigs[i].signature),
                },
            );
            i = i + 1;
        }
        let bytes = copy_bytes(&self.bytes);
        proof {
            assert(source@ == self.source@);
            assert(sig_views(sigs@) =~= sig_views(self.sigs@));
        }
        let r = MtlTransaction {
            bytes,
            source,
            fee: self.fee,
            seq_num: self.seq_num,
            time_bounds: self.time_bounds,
            sigs,
        };
        proof {
            assert(r@ == self@);
        }
        r
    }

    /// The base64 text form of the envelope, in which it travels
    /// between signers.
    pub fn into_encoding(&self) -> (r: String)
        ensures
            r@ == ascii_chars_of(crate::base64::b64_encode(self@.bytes)),
    {
        let encoded = crate::base64::base64_encode(self.bytes.as_slice());
        proof {
            crate::base64::lemma_encode_ascii(self.bytes@);
        }
        let text = crate::adapters::ascii_to_string(&encoded);
        proof {
            assert(text@ =~= ascii_chars_of(crate::base64::b64_encode(self@.bytes)));
        }
        text
    }
}

/// The round trip through the text form: rendering a well-formed
/// transaction as base64 text and decoding the bytes of that text
/// yields the transaction back.
pub proof fn lemma_text_round_trip(v: TxView, text: Seq<char>)
    requires
        wf_tx(v),
        text =~= ascii_chars_of(crate::base64::b64_encode(v.bytes)),
    ensures
        spec_parse_text(vstd::utf8::encode_utf8(text)) == Ok::<TxView, MtlError>(v),
{
    let enc = crate::base64::b64_encode(v.bytes);
    crate::base64::lemma_encode_ascii(v.bytes);
    assert(vstd::utf8::is_ascii_chars(text));
    vstd::utf8::is_ascii_chars_encode_utf8(text);
    assert(vstd::utf8::encode_utf8(text) =~= enc);
    crate::base64::lemma_b64_round_trip(v.bytes);
    lemma_round_trip(v);
}

/// The set of signature hints attached to a transaction.
pub open spec fn hint_set(v: TxView) -> Set<Seq<u8>> {
    spec_hints(v).to_set()
}

/// One accepted amendment keeps the canonical identifier and never
/// drops a hint.
pub open spec fn amendment_ok(before: TxView, after: TxView) -> bool {
    spec_txid(before) == spec_txid(after) && hint_subset(before, after)
}

/// An accepted update is a legitimate amendment: the identifier stays
/// and the hint set can only grow.
pub proof fn lemma_update_monotone(stored: TxView, upd: TxView, a: AccountView)
    requires
        spec_validate_update(stored, upd, a) is Ok,
    ensures
        amendment_ok(stored, upd),
        hint_set(stored).subset_of(hint_set(upd)),
{
    lemma_amendment_sets(stored, upd);
}

/// Hint-subset at the sequence level gives subset at the set level.
proof fn lemma_amendment_sets(before: TxView, after: TxView)
    requires
        hint_subset(before, after),
    ensures
        hint_set(before).subset_of(hint_set(after)),
{
    assert forall|h: Seq<u8>| hint_set(before).contains(h) implies hint_set(after).contains(
        h,
    ) by {
        let i = choose|i: int| 0 <= i < spec_hints(before).len() && spec_hints(before)[i] == h;
        assert(spec_hints(before).contains(h));
        assert(spec_hints(after).contains(spec_hints(before)[i]));
    }
}

/// Monotonicity over a whole accepted update sequence (oldest first):
/// every entry keeps the identifier of the first, and the hint sets are
/// non-decreasing under set inclusion.
pub proof fn lemma_chain_monotone(chain: Seq<TxView>)
    requires
        chain.len() > 0,
        forall|k: int| 1 <= k < chain.len() ==> amendment_ok(#[trigger] chain[k - 1], chain[k]),
    ensures
        forall|k: int| 0 <= k < chain.len() ==> spec_txid(#[trigger] chain[k]) == spec_txid(
            chain[0],
        ),
        forall|i: int, j: int|
            0 <= i <= j < chain.len() ==> hint_set(#[trigger] chain[i]).subset_of(
                hint_set(#[trigger] chain[j]),
            ),
    decreases chain.len(),
{
    if chain.len() > 1 {
        let prefix = chain.drop_last();
        assert(forall|k: int|
            1 <= k < prefix.len() ==> amendment_ok(#[trigger] prefix[k - 1], prefix[k]));
        lemma_chain_monotone(prefix);
        let last = chain.len() - 1;
        assert(amendment_ok(chain[last - 1], chain[last]));
        lemma_amendment_sets(chain[last - 1], chain[last]);
        assert forall|k: int| 0 <= k < chain.len() implies spec_txid(#[trigger] chain[k])
            == spec_txid(chain[0]) by {
            assert(prefix[0] == chain[0]);
            if k < last {
                assert(prefix[k] == chain[k]);
                assert(spec_txid(prefix[k]) == spec_txid(prefix[0]));
            } else {
                assert(prefix[last - 1] == chain[last - 1]);
                assert(spec_txid(prefix[last - 1]) == spec_txid(prefix[0]));
                assert(spec_txid(chain[last - 1]) == spec_txid(chain[last]));
            }
        }
        assert forall|i: int, j: int| 0 <= i <= j < chain.len() implies hint_set(
            #[trigger] chain[i],
        ).subset_of(hint_set(#[trigger] chain[j])) by {
            if j < last {
                assert(prefix[i] == chain[i] && prefix[j] == chain[j]);
            } else if i < last {
                assert(prefix[i] == chain[i] && prefix[last - 1] == chain[last - 1]);
                assert(hint_set(chain[i]).subset_of(hint_set(chain[last - 1])));
                assert forall|h: Seq<u8>| hint_set(chain[i]).contains(h) implies hint_set(
                    chain[last],
                ).contains(h) by {
                    assert(hint_set(chain[last - 1]).contains(h));
                }
            }
        }
    }
}

/// Decoding, then re-encoding, then decoding again is the identity:
/// the encoding of a well-formed transaction decodes to that same
/// transaction.
pub proof fn lemma_round_trip(v: TxView)
    requires
        wf_tx(v),
    ensures
        spec_from_bytes(v.bytes) == Ok::<TxView, MtlError>(v),
{
}

/// The canonical identifier is a function of the transaction body (and
/// the network) alone: transactions with equal bodies — whatever and
/// however many signatures each carries — have equal identifiers.
pub proof fn lemma_identifier_stable(a: TxView, b: TxView)
    requires
        wf_tx(a),
        wf_tx(b),
        body_bytes(a) == body_bytes(b),
    ensures
        spec_txid(a) == spec_txid(b),
{
}

} // verus!
