//! A model of the source store: the event table as a growable sequence of
//! records, and the bounded fetch the loop drives against it.
//!
//! The production collaborator executes the same fetch as a query against the
//! embedded store; this model is what its contract promises, and what the
//! loop is verified against.

use vstd::prelude::*;
use vstd::multiset::Multiset;
use vstd::seq_lib::group_filter_ensures;
use vstd::seq_lib::group_to_multiset_ensures;

use crate::record::{SourceRecord, SourceRecordModel, source_models};

verus! {

broadcast use group_filter_ensures, group_to_multiset_ensures;

/// The watermark as a mathematical value: unset, or the highest timestamp of
/// any record delivered so far.
pub open spec fn watermark_model(w: Option<i64>) -> Option<int> {
    match w {
        Option::None => Option::None,
        Option::Some(t) => Option::Some(t as int),
    }
}

/// Whether a record with the given timestamp is due under the watermark:
/// every record when the watermark is unset, only strictly newer records
/// otherwise.
pub open spec fn admitted(watermark: Option<int>, timestamp: int) -> bool {
    match watermark {
        Option::None => true,
        Option::Some(w) => timestamp > w,
    }
}

/// The fetch filter as a predicate on record models.
pub open spec fn admits(watermark: Option<int>) -> spec_fn(SourceRecordModel) -> bool {
    |r: SourceRecordModel| admitted(watermark, r.timestamp)
}

/// The records of the store that a fetch below the given watermark owes, in
/// store order.
pub open spec fn due_records(
    store: Seq<SourceRecordModel>,
    watermark: Option<int>,
) -> Seq<SourceRecordModel> {
    store.filter(admits(watermark))
}

/// Newest first: timestamps never increase along the sequence.
pub open spec fn sorted_descending(s: Seq<SourceRecordModel>) -> bool {
    forall|i: int, j: int| 0 <= i < j < s.len() ==> s[i].timestamp >= s[j].timestamp
}

/// Decides `admitted` on plain values.
pub fn is_admitted(watermark: Option<i64>, timestamp: i64) -> (r: bool)
    ensures
        r == admitted(watermark_model(watermark), timestamp as int),
{
    match watermark {
        Option::None => true,
        Option::Some(w) => timestamp > w,
    }
}

proof fn lemma_models_index(s: Seq<SourceRecord>, i: int)
    requires
        0 <= i < s.len(),
    ensures
        source_models(s).len() == s.len(),
        source_models(s)[i] == s[i]@,
{
}

proof fn lemma_models_push(s: Seq<SourceRecord>, x: SourceRecord)
    ensures
        source_models(s.push(x)) == source_models(s).push(x@),
{
    assert(source_models(s.push(x)) =~= source_models(s).push(x@));
}

proof fn lemma_models_remove(s: Seq<SourceRecord>, i: int)
    requires
        0 <= i < s.len(),
    ensures
        source_models(s.remove(i)) == source_models(s).remove(i),
{
    assert(source_models(s.remove(i)) =~= source_models(s).remove(i));
}

proof fn lemma_filter_push(s: Seq<SourceRecordModel>, w: Option<int>, x: SourceRecordModel)
    ensures
        s.push(x).filter(admits(w)) == (if admits(w)(x) {
            s.filter(admits(w)).push(x)
        } else {
            s.filter(admits(w))
        }),
{
    reveal(Seq::filter);
    assert(s.push(x).drop_last() =~= s);
    assert(s.push(x).last() == x);
}

proof fn lemma_multiset_transfer<A>(b: Multiset<A>, p: Multiset<A>, x: A)
    requires
        p.count(x) > 0,
    ensures
        b.insert(x).add(p.remove(x)) == b.add(p),
{
    assert(b.insert(x).add(p.remove(x)) =~= b.add(p));
}

/// The modelled source store: an append-only collection of source records.
/// Nothing orders the records; a retroactive write may carry a timestamp
/// older than records already present.
pub struct Store {
    records: Vec<SourceRecord>,
}

impl Store {
    /// The records the store holds, in insertion order.
    pub closed spec fn contents(&self) -> Seq<SourceRecordModel> {
        source_models(self.records@)
    }

    /// An empty store.
    pub fn new() -> (s: Store)
        ensures
            s.contents() == Seq::<SourceRecordModel>::empty(),
    {
        let s = Store { records: Vec::new() };
        proof {
            assert(s.contents() =~= Seq::<SourceRecordModel>::empty());
        }
        s
    }

    /// Appends one record; read-only access everywhere else.
    pub fn insert(&mut self, r: SourceRecord)
        ensures
            final(self).contents() == old(self).contents().push(r@),
    {
        let ghost before = self.records@;
        let ghost rm = r@;
        self.records.push(r);
        proof {
            lemma_models_push(before, self.records@.last());
            assert(self.records@ == before.push(self.records@.last()));
            assert(final(self).contents() == old(self).contents().push(rm));
        }
    }

    /// One bounded, read-only fetch: exactly the records due under the
    /// watermark — every record strictly newer than it, none at or below it —
    /// ordered newest first.
    pub fn fetch(&self, watermark: Option<i64>) -> (batch: Vec<SourceRecord>)
        ensures
            source_models(batch@).to_multiset() == due_records(
                self.contents(),
                watermark_model(watermark),
            ).to_multiset(),
            batch@.len() == due_records(self.contents(), watermark_model(watermark)).len(),
            sorted_descending(source_models(batch@)),
            forall|i: int|
                0 <= i < batch@.len() ==> admitted(
                    watermark_model(watermark),
                    #[trigger] source_models(batch@)[i].timestamp,
                ),
    {
        let ghost wm = watermark_model(watermark);
        let ghost all = self.contents();
        // Gather the records due under the watermark, in store order.
        let mut pending: Vec<SourceRecord> = Vec::new();
        let mut i: usize = 0;
        proof {
            assert(all.take(0int) =~= Seq::<SourceRecordModel>::empty());
            reveal(Seq::filter);
            assert(source_models(pending@) =~= all.take(0int).filter(admits(wm)));
        }
        while i < self.records.len()
            invariant
                i <= self.records@.len(),
                all == source_models(self.records@),
                all.len() == self.records@.len(),
                wm == watermark_model(watermark),
                source_models(pending@) == all.take(i as int).filter(admits(wm)),
                forall|j: int|
                    0 <= j < pending@.len() ==> admitted(
                        wm,
                        #[trigger] pending@[j].timestamp as int,
                    ),
            decreases self.records@.len() - i,
        {
            let ghost prefix = all.take(i as int);
            let r = &self.records[i];
            proof {
                lemma_models_index(self.records@, i as int);
                assert(all.take(i + 1) =~= prefix.push(r@));
                lemma_filter_push(prefix, wm, r@);
            }
            if is_admitted(watermark, r.timestamp) {
                let d = r.duplicate();
                let ghost pend0 = pending@;
                pending.push(d);
                proof {
                    lemma_models_push(pend0, pending@.last());
                    assert(pending@ == pend0.push(pending@.last()));
                    assert(source_models(pending@) == all.take(i + 1).filter(admits(wm)));
                }
            } else {
                proof {
                    assert(source_models(pending@) == all.take(i + 1).filter(admits(wm)));
                }
            }
            i = i + 1;
        }
        proof {
            assert(all.take(all.len() as int) =~= all);
        }
        let ghost due = due_records(all, wm);
        // Drain `pending` largest timestamp first.
        let mut batch: Vec<SourceRecord> = Vec::new();
        proof {
            assert(source_models(batch@) =~= Seq::<SourceRecordModel>::empty());
            assert(source_models(batch@).to_multiset().add(source_models(pending@).to_multiset())
                =~= due.to_multiset());
        }
        while pending.len() > 0
            invariant
                wm == watermark_model(watermark),
                source_models(batch@).to_multiset().add(source_models(pending@).to_multiset())
                    == due.to_multiset(),
                forall|a: int, b: int|
                    0 <= a < b < batch@.len() ==> #[trigger] batch@[a].timestamp
                        >= #[trigger] batch@[b].timestamp,
                forall|a: int, b: int|
                    0 <= a < batch@.len() && 0 <= b < pending@.len()
                        ==> #[trigger] pending@[b].timestamp <= #[trigger] batch@[a].timestamp,
                forall|a: int|
                    0 <= a < batch@.len() ==> admitted(wm, #[trigger] batch@[a].timestamp as int),
                forall|b: int|
                    0 <= b < pending@.len() ==> admitted(
                        wm,
                        #[trigger] pending@[b].timestamp as int,
                    ),
            decreases pending@.len(),
        {
            // Index of a newest remaining record.
            let mut best: usize = 0;
            let mut k: usize = 1;
            while k < pending.len()
                invariant
                    pending@.len() > 0,
                    best < k,
                    k <= pending@.len(),
                    forall|j: int|
                        0 <= j < k ==> #[trigger] pending@[j].timestamp <= pending@[
                            best as int].timestamp,
                decreases pending@.len() - k,
            {
                if pending[k].timestamp > pending[best].timestamp {
                    best = k;
                }
                k = k + 1;
            }
            let ghost pend0 = pending@;
            let ghost bat0 = batch@;
            let ghost x = pend0[best as int]@;
            let r = pending.remove(best);
            batch.push(r);
            proof {
                lemma_models_index(pend0, best as int);
                assert(source_models(pend0).contains(x));
                assert(source_models(pend0).to_multiset().count(x) > 0);
                lemma_models_remove(pend0, best as int);
                assert(pending@ == pend0.remove(best as int));
                lemma_models_push(bat0, batch@.last());
                assert(batch@ == bat0.push(batch@.last()));
                assert(batch@.last()@ == x);
                lemma_multiset_transfer(
                    source_models(bat0).to_multiset(),
                    source_models(pend0).to_multiset(),
                    x,
                );
                assert(source_models(batch@).to_multiset() == source_models(bat0).to_multiset()
                    .insert(x));
                assert(source_models(pending@).to_multiset() == source_models(pend0).to_multiset()
                    .remove(x));
            }
        }
        proof {
            assert(source_models(pending@) =~= Seq::<SourceRecordModel>::empty());
            assert(source_models(pending@).to_multiset() =~= Multiset::<SourceRecordModel>::empty());
            assert(source_models(batch@).to_multiset() =~= due.to_multiset());
            assert(batch@.len() == source_models(batch@).len());
            assert(source_models(batch@).to_multiset().len() == due.to_multiset().len());
            assert(batch@.len() == due.len());
            assert forall|i: int, j: int|
                0 <= i < j < source_models(batch@).len() implies source_models(batch@)[i].timestamp
                >= source_models(batch@)[j].timestamp by {
                lemma_models_index(batch@, i);
                lemma_models_index(batch@, j);
            }
            assert forall|i: int| 0 <= i < batch@.len() implies admitted(
                wm,
                source_models(batch@)[i].timestamp,
            ) by {
                lemma_models_index(batch@, i);
            }
        }
        batch
    }
}

} // verus!
