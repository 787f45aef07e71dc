//! A stored proposal and its amendment history: the envelope versions
//! of one canonical transaction identifier, newest first, each with the
//! unix timestamp at which it was accepted.

use vstd::prelude::*;

use crate::error::MtlError;
use crate::transaction::{spec_from_bytes, MtlTransaction, TxView};

verus! {

/// A proposal with its title, description and version history, newest
/// first; the head of the history is the current version.
#[derive(Debug)]
pub struct MtlTxMeta {
    pub title: String,
    pub description: String,
    pub history: Vec<(MtlTransaction, i64)>,
}

/// The mathematical value of a version history.
pub open spec fn history_views(h: Seq<(MtlTransaction, i64)>) -> Seq<(TxView, i64)> {
    h.map_values(|p: (MtlTransaction, i64)| (p.0@, p.1))
}

impl MtlTxMeta {
    /// The current version of the proposal: the head of the history.
    pub fn current(&self) -> (r: (MtlTransaction, i64))
        requires
            self.history@.len() > 0,
        ensures
            r.0@ == self.history@[0].0@,
            r.1 == self.history@[0].1,
    {
        let tx = self.history[0].0.duplicate();
        (tx, self.history[0].1)
    }

    /// Rebuilds a proposal from stored rows (envelope bytes and
    /// timestamp, newest first): every row must decode, and the history
    /// holds the decoded versions in row order.
    pub fn from_rows(title: String, description: String, rows: &Vec<(Vec<u8>, i64)>) -> (r: Result<
        MtlTxMeta,
        MtlError,
    >)
        ensures
            r is Ok <==> forall|i: int|
                0 <= i < rows@.len() ==> spec_from_bytes((#[trigger] rows@[i]).0@) is Ok,
            r matches Ok(m) ==> {
                &&& m.title@ == title@
                &&& m.description@ == description@
                &&& m.history@.len() == rows@.len()
                &&& forall|i: int|
                    0 <= i < rows@.len() ==> (spec_from_bytes(rows@[i].0@) matches Ok(v)
                        && (#[trigger] m.history@[i]).0@ == v && m.history@[i].1 == rows@[i].1)
            },
            r matches Err(e) ==> exists|i: int|
                0 <= i < rows@.len() && spec_from_bytes((#[trigger] rows@[i]).0@) == Err::<
                    TxView,
                    MtlError,
                >(e),
    {
        let mut history: Vec<(MtlTransaction, i64)> = Vec::new();
        let n = rows.len();
        let mut i: usize = 0;
        while i < n
            invariant
                n == rows@.len(),
                0 <= i <= n,
                history@.len() == i,
                forall|j: int|
                    0 <= j < i ==> (spec_from_bytes((#[trigger] rows@[j]).0@) matches Ok(v) && (
                    #[trigger] history@[j]).0@ == v && history@[j].1 == rows@[j].1),
            decreases n - i,
        {
            let tx = match MtlTransaction::from_bytes(rows[i].0.as_slice()) {
                Ok(t) => t,
                Err(e) => {
                    return Err(e);
                },
            };
            history.push((tx, rows[i].1));
            i = i + 1;
        }
        proof {
            assert forall|j: int| 0 <= j < rows@.len() implies spec_from_bytes(
                (#[trigger] rows@[j]).0@,
            ) is Ok by {
                assert((spec_from_bytes(rows@[j].0@) matches Ok(v) && history@[j].0@ == v));
            }
        }
        Ok(MtlTxMeta { title, description, history })
    }
}

} // verus!
