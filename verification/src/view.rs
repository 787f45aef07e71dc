//! What the service presents to human signers: the signer list of a
//! proposal with signing status and activity, the amendment history,
//! the landing redirect and the poll decision for a proposal page.

use vstd::prelude::*;

use crate::account::{all_keys_ok, resolved_signers, AccountResponse};
use crate::adapters;
use crate::adapters::{strkey_text_of, timestamp_text_of};
use crate::bigend::{append_bytes, bytes_eq, copy_range};
use crate::error::MtlError;
use crate::history::MtlTxMeta;
use crate::transaction::{ascii_chars_of, key_hint};
use vstd::multiset::Multiset;

verus! {

/// The path that the landing page redirects to: transaction creation.
pub fn index() -> (r: &'static str)
    ensures
        r@ == "/create"@,
{
    "/create"
}

/// The outcome of a poll on a proposal page: whether the page's view of
/// the proposal (blocked flag, amendment count, published flag) is out
/// of date.
pub struct CheckResult {
    pub updated: bool,
    pub is_error: bool,
    pub error_msg: Option<String>,
}

/// Whether a proposal page showing `block`, `updates` and `published`
/// is out of date against the live values.
pub fn check_update_decision(
    block: bool,
    is_blocked: bool,
    updates: u32,
    n_updates: u32,
    published: bool,
    is_published: bool,
) -> (r: bool)
    ensures
        r == (block != is_blocked || updates != n_updates || published != is_published),
{
    block != is_blocked || updates != n_updates || published != is_published
}

/// One signer of the account as shown to humans: key text, shortened
/// key text, weight, whether it has signed, its notification handle and
/// its recent signing activity.
pub struct ViewSigner {
    pub key: String,
    pub short_key: String,
    pub weight: i32,
    pub signed: bool,
    pub telegram: Option<String>,
    pub singed_monthly: u32,
    pub is_few_signs: bool,
    pub is_moderate_signs: bool,
}

/// The mathematical value of a displayed signer.
pub struct ViewSignerV {
    pub key: Seq<char>,
    pub short_key: Seq<char>,
    pub weight: i32,
    pub signed: bool,
    pub telegram: Option<Seq<char>>,
    pub singed_monthly: u32,
    pub is_few_signs: bool,
    pub is_moderate_signs: bool,
}

impl View for ViewSigner {
    type V = ViewSignerV;

    open spec fn view(&self) -> ViewSignerV {
        ViewSignerV {
            key: self.key@,
            short_key: self.short_key@,
            weight: self.weight,
            signed: self.signed,
            telegram: match self.telegram {
                Some(ref t) => Some(t@),
                None => None,
            },
            singed_monthly: self.singed_monthly,
            is_few_signs: self.is_few_signs,
            is_moderate_signs: self.is_moderate_signs,
        }
    }
}

/// The mathematical values of a vector of displayed signers.
pub open spec fn signer_views(s: Seq<ViewSigner>) -> Seq<ViewSignerV> {
    s.map_values(|v: ViewSigner| v@)
}

/// The mathematical value of a key-to-text association list.
pub open spec fn tmap_view(s: Seq<(Vec<u8>, String)>) -> Seq<(Seq<u8>, Seq<char>)> {
    s.map_values(|p: (Vec<u8>, String)| (p.0@, p.1@))
}

/// The mathematical value of a key-to-count association list.
pub open spec fn smap_view(s: Seq<(Vec<u8>, u32)>) -> Seq<(Seq<u8>, u32)> {
    s.map_values(|p: (Vec<u8>, u32)| (p.0@, p.1))
}

/// The mathematical value of a list of hints.
pub open spec fn hints_view(s: Seq<Vec<u8>>) -> Seq<Seq<u8>> {
    s.map_values(|v: Vec<u8>| v@)
}

/// The first text associated with a key, if any.
pub open spec fn assoc_str(m: Seq<(Seq<u8>, Seq<char>)>, k: Seq<u8>) -> Option<Seq<char>>
    decreases m.len(),
{
    if m.len() == 0 {
        None
    } else if m.first().0 == k {
        Some(m.first().1)
    } else {
        assoc_str(m.drop_first(), k)
    }
}

/// The first count associated with a key, or zero.
pub open spec fn assoc_u32(m: Seq<(Seq<u8>, u32)>, k: Seq<u8>) -> u32
    decreases m.len(),
{
    if m.len() == 0 {
        0
    } else if m.first().0 == k {
        m.first().1
    } else {
        assoc_u32(m.drop_first(), k)
    }
}

/// The shortened form of a 56-character key text: its first fifteen
/// characters, three dots, its last fifteen characters.
pub open spec fn short_bytes(t: Seq<u8>) -> Seq<u8>
    recommends
        t.len() == 56,
{
    t.take(15) + seq![46u8, 46u8, 46u8] + t.skip(41)
}

/// The displayed signer built for one signer record.
pub open spec fn mk_view_signer(
    tmap: Seq<(Seq<u8>, Seq<char>)>,
    smap: Seq<(Seq<u8>, u32)>,
    hints: Seq<Seq<u8>>,
    key: Seq<u8>,
    weight: i32,
) -> ViewSignerV {
    let monthly = assoc_u32(smap, key);
    ViewSignerV {
        key: ascii_chars_of(strkey_text_of(key)),
        short_key: ascii_chars_of(short_bytes(strkey_text_of(key))),
        weight: weight,
        signed: hints.contains(key_hint(key)),
        telegram: assoc_str(tmap, key),
        singed_monthly: monthly,
        is_few_signs: monthly < 4,
        is_moderate_signs: monthly < 10,
    }
}

/// The displayed signers of an account, in signer order: every signer
/// with voting power, with its signing status against the attached
/// hints. Zero-weight signers never face the user.
pub open spec fn collect_list(
    tmap: Seq<(Seq<u8>, Seq<char>)>,
    smap: Seq<(Seq<u8>, u32)>,
    hints: Seq<Seq<u8>>,
    keys: Seq<(Seq<u8>, i32)>,
) -> Seq<ViewSignerV>
    decreases keys.len(),
{
    if keys.len() == 0 {
        Seq::empty()
    } else {
        let rest = collect_list(tmap, smap, hints, keys.drop_last());
        if keys.last().1 > 0 {
            rest.push(mk_view_signer(tmap, smap, hints, keys.last().0, keys.last().1))
        } else {
            rest
        }
    }
}

/// Whether a sequence of displayed signers is ordered by weight, the
/// heaviest first.
pub open spec fn sorted_desc(s: Seq<ViewSignerV>) -> bool {
    forall|i: int, j: int| 0 <= i <= j < s.len() ==> (#[trigger] s[i]).weight >= (
    #[trigger] s[j]).weight
}

/// Whether a list of hints contains the given one.
fn contains_bytes(list: &Vec<Vec<u8>>, x: &Vec<u8>) -> (r: bool)
    ensures
        r == hints_view(list@).contains(x@),
{
    let n = list.len();
    let mut i: usize = 0;
    while i < n
        invariant
            n == list@.len(),
            0 <= i <= n,
            forall|j: int| 0 <= j < i ==> hints_view(list@)[j] != x@,
        decreases n - i,
    {
        proof {
            assert(hints_view(list@)[i as int] == list@[i as int]@);
        }
        if bytes_eq(list[i].as_slice(), x.as_slice()) {
            return true;
        }
        i = i + 1;
    }
    proof {
        assert(!hints_view(list@).contains(x@));
    }
    false
}

/// Looks up the text associated with a key.
fn lookup_str(m: &Vec<(Vec<u8>, String)>, k: &Vec<u8>) -> (r: Option<String>)
    ensures
        match r {
            Some(t) => assoc_str(tmap_view(m@), k@) == Some(t@),
            None => assoc_str(tmap_view(m@), k@) is None,
        },
{
    let ghost gm = tmap_view(m@);
    let n = m.len();
    let mut i: usize = 0;
    proof {
        assert(gm.skip(0) =~= gm);
    }
    while i < n
        invariant
            n == m@.len(),
            gm == tmap_view(m@),
            0 <= i <= n,
            assoc_str(gm, k@) == assoc_str(gm.skip(i as int), k@),
        decreases n - i,
    {
        proof {
            assert(gm.skip(i as int).first() == (m@[i as int].0@, m@[i as int].1@));
            assert(gm.skip(i as int).drop_first() =~= gm.skip(i + 1));
        }
        if bytes_eq(m[i].0.as_slice(), k.as_slice()) {
            return Some(m[i].1.clone());
        }
        i = i + 1;
    }
    proof {
        assert(gm.skip(n as int) =~= Seq::<(Seq<u8>, Seq<char>)>::empty());
    }
    None
}

/// Looks up the count associated with a key, or zero.
fn lookup_u32(m: &Vec<(Vec<u8>, u32)>, k: &Vec<u8>) -> (r: u32)
    ensures
        r == assoc_u32(smap_view(m@), k@),
{
    let ghost gm = smap_view(m@);
    let n = m.len();
    let mut i: usize = 0;
    proof {
        assert(gm.skip(0) =~= gm);
    }
    while i < n
        invariant
            n == m@.len(),
            gm == smap_view(m@),
            0 <= i <= n,
            assoc_u32(gm, k@) == assoc_u32(gm.skip(i as int), k@),
        decreases n - i,
    {
        proof {
            assert(gm.skip(i as int).first() == (m@[i as int].0@, m@[i as int].1));
            assert(gm.skip(i as int).drop_first() =~= gm.skip(i + 1));
        }
        if bytes_eq(m[i].0.as_slice(), k.as_slice()) {
            return m[i].1;
        }
        i = i + 1;
    }
    proof {
        assert(gm.skip(n as int) =~= Seq::<(Seq<u8>, u32)>::empty());
    }
    0
}

/// Builds the displayed signer for one record.
fn build_view_signer(
    telegram_map: &Vec<(Vec<u8>, String)>,
    signs_map: &Vec<(Vec<u8>, u32)>,
    signs: &Vec<Vec<u8>>,
    key: &Vec<u8>,
    weight: i32,
) -> (r: ViewSigner)
    requires
        key@.len() == 32,
    ensures
        r@ == mk_view_signer(
            tmap_view(telegram_map@),
            smap_view(signs_map@),
            hints_view(signs@),
            key@,
            weight,
        ),
{
    let enc = adapters::encode_public_key(key.as_slice());
    let key_text = adapters::ascii_to_string(&enc);
    let mut sb = copy_range(enc.as_slice(), 0, 15);
    sb.push(46);
    sb.push(46);
    sb.push(46);
    let tail = copy_range(enc.as_slice(), 41, 56);
    append_bytes(&mut sb, tail.as_slice());
    proof {
        assert(sb@ =~= short_bytes(strkey_text_of(key@)));
    }
    let short_text = adapters::ascii_to_string(&sb);
    let hint = copy_range(key.as_slice(), 28, 32);
    let signed = contains_bytes(signs, &hint);
    let telegram = lookup_str(telegram_map, key);
    let monthly = lookup_u32(signs_map, key);
    let r = ViewSigner {
        key: key_text,
        short_key: short_text,
        weight,
        signed,
        telegram,
        singed_monthly: monthly,
        is_few_signs: monthly < 4,
        is_moderate_signs: monthly < 10,
    };
    proof {
        assert(r.key@ =~= ascii_chars_of(strkey_text_of(key@)));
        assert(r.short_key@ =~= ascii_chars_of(short_bytes(strkey_text_of(key@))));
    }
    r
}

impl ViewSigner {
    /// The displayed signer list of an account: every signer with
    /// voting power, its signing status taken from the attached hints,
    /// its notification handle and recent activity from the given
    /// association lists, ordered by weight with the heaviest first.
    pub fn collect(
        telegram_map: &Vec<(Vec<u8>, String)>,
        signs_map: &Vec<(Vec<u8>, u32)>,
        account: &AccountResponse,
        signs: &Vec<Vec<u8>>,
    ) -> (r: Result<Vec<ViewSigner>, MtlError>)
        ensures
            r matches Ok(out) ==> {
                &&& all_keys_ok(account@.signers)
                &&& signer_views(out@).to_multiset() == collect_list(
                    tmap_view(telegram_map@),
                    smap_view(signs_map@),
                    hints_view(signs@),
                    resolved_signers(account@.signers),
                ).to_multiset()
                &&& sorted_desc(signer_views(out@))
            },
            r matches Err(e) ==> e == MtlError::UnsupportedSignerKey && !all_keys_ok(
                account@.signers,
            ),
    {
        let keys = match crate::account::get_mtl_signers(account) {
            Ok(k) => k,
            Err(e) => {
                return Err(e);
            },
        };
        let ghost gtmap = tmap_view(telegram_map@);
        let ghost gsmap = smap_view(signs_map@);
        let ghost ghints = hints_view(signs@);
        let ghost gkeys = crate::account::pairs_view(keys@);
        proof {
            assert(gkeys == resolved_signers(account@.signers));
        }
        let mut todo: Vec<ViewSigner> = Vec::new();
        let n = keys.len();
        let mut i: usize = 0;
        while i < n
            invariant
                n == keys@.len(),
                0 <= i <= n,
                gtmap == tmap_view(telegram_map@),
                gsmap == smap_view(signs_map@),
                ghints == hints_view(signs@),
                gkeys == crate::account::pairs_view(keys@),
                forall|q: int| 0 <= q < keys@.len() ==> (#[trigger] keys@[q]).0@.len() == 32,
                signer_views(todo@) == collect_list(gtmap, gsmap, ghints, gkeys.take(i as int)),
            decreases n - i,
        {
            proof {
                assert(gkeys[i as int] == (keys@[i as int].0@, keys@[i as int].1));
                assert(gkeys.take(i + 1).drop_last() =~= gkeys.take(i as int));
                assert(gkeys.take(i + 1).last() == gkeys[i as int]);
            }
            if keys[i].1 > 0 {
                let vs = build_view_signer(telegram_map, signs_map, signs, &keys[i].0, keys[i].1);
                todo.push(vs);
                proof {
                    assert(signer_views(todo@) =~= collect_list(
                        gtmap,
                        gsmap,
                        ghints,
                        gkeys.take(i + 1),
                    ));
                }
            } else {
                proof {
                    assert(signer_views(todo@) =~= collect_list(
                        gtmap,
                        gsmap,
                        ghints,
                        gkeys.take(i + 1),
                    ));
                }
            }
            i = i + 1;
        }
        let ghost total = collect_list(gtmap, gsmap, ghints, gkeys);
        proof {
            assert(gkeys.take(n as int) =~= gkeys);
        }
        let mut out: Vec<ViewSigner> = Vec::new();
        proof {
            signer_views(todo@).to_multiset_ensures();
            signer_views(out@).to_multiset_ensures();
            assert(signer_views(out@) =~= Seq::<ViewSignerV>::empty());
            assert(signer_views(out@).to_multiset().add(signer_views(todo@).to_multiset())
                =~= total.to_multiset());
        }
        while todo.len() > 0
            invariant
                signer_views(out@).to_multiset().add(signer_views(todo@).to_multiset())
                    == total.to_multiset(),
                sorted_desc(signer_views(out@)),
                forall|a: int, b: int|
                    0 <= a < out@.len() && 0 <= b < todo@.len() ==> (#[trigger] signer_views(
                        out@,
                    )[a]).weight >= (#[trigger] signer_views(todo@)[b]).weight,
            decreases todo@.len(),
        {
            let m = todo.len();
            let mut best: usize = 0;
            let mut j: usize = 1;
            while j < m
                invariant
                    m == todo@.len(),
                    0 <= best < m,
                    1 <= j <= m,
                    forall|q: int| 0 <= q < j ==> (#[trigger] signer_views(todo@)[q]).weight
                        <= signer_views(todo@)[best as int].weight,
                decreases m - j,
            {
                if todo[j].weight > todo[best].weight {
                    best = j;
                }
                j = j + 1;
            }
            let ghost old_out = signer_views(out@);
            let ghost old_todo = signer_views(todo@);
            let picked = todo.remove(best);
            out.push(picked);
            proof {
                assert(old_todo[best as int] == picked@);
                assert(signer_views(todo@) =~= old_todo.remove(best as int));
                assert(signer_views(out@) =~= old_out.push(picked@));
                old_todo.to_multiset_ensures();
                old_out.to_multiset_ensures();
                assert(old_todo.to_multiset().contains(picked@)) by {
                    assert(old_todo[best as int] == picked@);
                    assert(old_todo.contains(picked@));
                }
                assert(signer_views(out@).to_multiset().add(signer_views(todo@).to_multiset())
                    =~= old_out.to_multiset().add(old_todo.to_multiset()));
                assert forall|b: int| 0 <= b < todo@.len() implies (signer_views(
                    out@,
                ).last()).weight >= (#[trigger] signer_views(todo@)[b]).weight by {
                    if b < best {
                        assert(old_todo.remove(best as int)[b] == old_todo[b]);
                    } else {
                        assert(old_todo.remove(best as int)[b] == old_todo[b + 1]);
                    }
                }
            }
        }
        proof {
            signer_views(todo@).to_multiset_ensures();
            assert(signer_views(todo@) =~= Seq::<ViewSignerV>::empty());
            assert(signer_views(todo@).to_multiset() =~= Multiset::<ViewSignerV>::empty());
            assert(signer_views(out@).to_multiset().add(Multiset::<ViewSignerV>::empty())
                =~= signer_views(out@).to_multiset());
        }
        Ok(out)
    }
}

/// One line of the amendment history as shown to humans: the version's
/// ordinal (the first accepted version is 1), the acceptance time and
/// the envelope's text form.
pub struct TxHistoryItem {
    pub number: u32,
    pub date: String,
    pub tx: String,
}

/// The mathematical value of a history line.
pub struct TxHistoryItemV {
    pub number: u32,
    pub date: Seq<char>,
    pub tx: Seq<char>,
}

impl View for TxHistoryItem {
    type V = TxHistoryItemV;

    open spec fn view(&self) -> TxHistoryItemV {
        TxHistoryItemV { number: self.number, date: self.date@, tx: self.tx@ }
    }
}

/// The mathematical values of a vector of history lines.
pub open spec fn item_views(s: Seq<TxHistoryItem>) -> Seq<TxHistoryItemV> {
    s.map_values(|v: TxHistoryItem| v@)
}

/// The history lines of a proposal, oldest first: line `i` presents
/// version `history[n - 1 - i]` under ordinal `i + 1`.
pub open spec fn spec_history_items(h: Seq<(crate::transaction::TxView, i64)>) -> Seq<
    TxHistoryItemV,
> {
    Seq::new(
        h.len(),
        |i: int|
            TxHistoryItemV {
                number: (i + 1) as u32,
                date: timestamp_text_of(h[h.len() - 1 - i].1 as int),
                tx: ascii_chars_of(crate::base64::b64_encode(h[h.len() - 1 - i].0.bytes)),
            },
    )
}

impl TxHistoryItem {
    /// The displayed amendment history of a proposal, ordered from the
    /// first accepted version to the current one.
    pub fn collect(meta: &MtlTxMeta) -> (r: Vec<TxHistoryItem>)
        requires
            meta.history@.len() < 0x100000000,
            forall|i: int|
                0 <= i < meta.history@.len() ==> 0 <= (#[trigger] meta.history@[i]).1
                    <= 253402300799,
        ensures
            item_views(r@) == spec_history_items(
                crate::history::history_views(meta.history@),
            ),
    {
        let ghost gh = crate::history::history_views(meta.history@);
        let n = meta.history.len();
        let mut out: Vec<TxHistoryItem> = Vec::new();
        let mut i: usize = 0;
        while i < n
            invariant
                n == meta.history@.len(),
                n < 0x100000000,
                gh == crate::history::history_views(meta.history@),
                forall|q: int|
                    0 <= q < meta.history@.len() ==> 0 <= (#[trigger] meta.history@[q]).1
                        <= 253402300799,
                0 <= i <= n,
                out@.len() == i,
                forall|q: int| 0 <= q < i ==> (#[trigger] item_views(out@)[q])
                    == spec_history_items(gh)[q],
            decreases n - i,
        {
            let idx = n - 1 - i;
            proof {
                assert(gh[idx as int] == (meta.history@[idx as int].0@, meta.history@[
                idx as int].1));
            }
            let date = adapters::format_timestamp(meta.history[idx].1);
            let tx_text = meta.history[idx].0.into_encoding();
            let item = TxHistoryItem { number: (i as u32) + 1, date, tx: tx_text };
            let ghost prev = out@;
            out.push(item);
            proof {
                assert(gh.len() == n);
                assert(item_views(out@) =~= item_views(prev).push(item@));
                assert(item_views(out@)[i as int] == item@);
                assert(item@ == spec_history_items(gh)[i as int]);
                assert(forall|q: int|
                    0 <= q < i ==> (#[trigger] item_views(out@)[q]) == item_views(prev)[q]);
            }
            i = i + 1;
        }
        proof {
            assert(item_views(out@) =~= spec_history_items(gh));
        }
        out
    }
}

} // verus!
