//! The tail loop: the owner of the watermark, the fetch/process cycle, and
//! the idle-backoff policy, as a state machine the driving process steps.
//!
//! The driver performs the outside work (running the fetch against the store,
//! emitting, sleeping) and hands the results back as plain values; every
//! decision — what to fetch, what to deliver, where the watermark moves,
//! when to back off — is made and proved here.

use vstd::prelude::*;
use vstd::seq_lib::group_filter_ensures;
use vstd::seq_lib::group_to_multiset_ensures;

use crate::record::{
    NormalizedRecord, NormalizedRecordModel, SourceRecord, SourceRecordModel,
    lemma_transform_injective, normalized_models, source_models, transform, transform_model,
};
use crate::store::{Store, admits, admitted, due_records, watermark_model};

verus! {

broadcast use group_filter_ensures, group_to_multiset_ensures;

/// The loop's control state.
///
/// `Idle` waits for the next cycle; `Fetching` has asked the source for a
/// batch; `Processing` is delivering a non-empty batch; `Backoff` found
/// nothing new (or the fetch failed) and waits out the poll interval.
#[derive(Clone, Copy, Debug, PartialEq, Eq, Structural)]
pub enum LoopState {
    Idle,
    Fetching,
    Processing,
    Backoff,
}

/// What one fetch against the source came to: a batch of records (possibly
/// empty), or a query-engine-level failure, which is retryable.
pub enum FetchOutcome {
    Records(Vec<SourceRecord>),
    QueryFailed,
}

/// The transforms of a batch, in batch order.
pub open spec fn transform_all(batch: Seq<SourceRecordModel>) -> Seq<NormalizedRecordModel> {
    batch.map_values(|r: SourceRecordModel| transform_model(r))
}

/// The largest timestamp in a batch (0 for an empty batch, which no caller
/// relies on).
pub open spec fn batch_max(batch: Seq<SourceRecordModel>) -> int
    decreases batch.len(),
{
    if batch.len() == 0 {
        0
    } else if batch.len() == 1 {
        batch[0].timestamp
    } else if batch.last().timestamp > batch_max(batch.drop_last()) {
        batch.last().timestamp
    } else {
        batch_max(batch.drop_last())
    }
}

/// Where the watermark stands after one batch: unchanged by an empty batch,
/// the batch's true maximum timestamp otherwise.
pub open spec fn next_watermark(
    watermark: Option<int>,
    batch: Seq<SourceRecordModel>,
) -> Option<int> {
    if batch.len() == 0 {
        watermark
    } else {
        Option::Some(batch_max(batch))
    }
}

/// Where the watermark stands after one full cycle against a store.
pub open spec fn cycle_watermark(
    store: Seq<SourceRecordModel>,
    watermark: Option<int>,
) -> Option<int> {
    next_watermark(watermark, due_records(store, watermark))
}

/// What one full cycle against a store delivers, up to delivery order.
pub open spec fn cycle_output(
    store: Seq<SourceRecordModel>,
    watermark: Option<int>,
) -> Seq<NormalizedRecordModel> {
    transform_all(due_records(store, watermark))
}

/// The order on watermarks: unset is below everything, set ones compare by
/// timestamp.
pub open spec fn watermark_le(a: Option<int>, b: Option<int>) -> bool {
    match (a, b) {
        (Option::None, _) => true,
        (Option::Some(x), Option::Some(y)) => x <= y,
        (Option::Some(_), Option::None) => false,
    }
}

/// Newest first over normalized records.
pub open spec fn sorted_descending_normalized(s: Seq<NormalizedRecordModel>) -> bool {
    forall|i: int, j: int| 0 <= i < j < s.len() ==> s[i].timestamp >= s[j].timestamp
}

proof fn lemma_norm_models_push(s: Seq<NormalizedRecord>, x: NormalizedRecord)
    ensures
        normalized_models(s.push(x)) == normalized_models(s).push(x@),
{
    assert(normalized_models(s.push(x)) =~= normalized_models(s).push(x@));
}

proof fn lemma_models_index(s: Seq<SourceRecord>, i: int)
    requires
        0 <= i < s.len(),
    ensures
        source_models(s).len() == s.len(),
        source_models(s)[i] == s[i]@,
{
}

/// The maximum of a non-empty batch bounds every element and is attained.
proof fn lemma_batch_max_bound(batch: Seq<SourceRecordModel>)
    requires
        batch.len() > 0,
    ensures
        forall|i: int| 0 <= i < batch.len() ==> #[trigger] batch[i].timestamp <= batch_max(batch),
        exists|i: int| 0 <= i < batch.len() && #[trigger] batch[i].timestamp == batch_max(batch),
    decreases batch.len(),
{
    if batch.len() == 1 {
        assert(batch[0].timestamp == batch_max(batch));
    } else {
        let sub = batch.drop_last();
        lemma_batch_max_bound(sub);
        if batch.last().timestamp > batch_max(sub) {
            assert(batch[batch.len() - 1].timestamp == batch_max(batch));
        } else {
            let i = choose|i: int| 0 <= i < sub.len() && #[trigger] sub[i].timestamp == batch_max(
                sub,
            );
            assert(batch[i].timestamp == batch_max(batch));
        }
        assert forall|i: int| 0 <= i < batch.len() implies #[trigger] batch[i].timestamp
            <= batch_max(batch) by {
            if i < batch.len() - 1 {
                assert(batch[i] == sub[i]);
            }
        }
    }
}

/// Batches with the same records have the same maximum.
proof fn lemma_batch_max_multiset(a: Seq<SourceRecordModel>, b: Seq<SourceRecordModel>)
    requires
        a.to_multiset() == b.to_multiset(),
        a.len() > 0,
    ensures
        b.len() > 0,
        batch_max(a) == batch_max(b),
{
    assert(a.len() == a.to_multiset().len());
    assert(b.len() == b.to_multiset().len());
    lemma_batch_max_bound(a);
    lemma_batch_max_bound(b);
    let i = choose|i: int| 0 <= i < a.len() && #[trigger] a[i].timestamp == batch_max(a);
    assert(a.to_multiset().count(a[i]) > 0) by {
        assert(a.contains(a[i]));
    }
    assert(b.contains(a[i]));
    let bi = choose|k: int| 0 <= k < b.len() && b[k] == a[i];
    assert(b[bi].timestamp <= batch_max(b));
    let j = choose|j: int| 0 <= j < b.len() && #[trigger] b[j].timestamp == batch_max(b);
    assert(b.to_multiset().count(b[j]) > 0) by {
        assert(b.contains(b[j]));
    }
    assert(a.contains(b[j]));
    let aj = choose|k: int| 0 <= k < a.len() && a[k] == b[j];
    assert(a[aj].timestamp <= batch_max(a));
}

/// Transforming keeps multiplicities: a record occurs in the transformed
/// batch exactly as often as it occurs in the batch.
proof fn lemma_transform_all_count(s: Seq<SourceRecordModel>, r: SourceRecordModel)
    ensures
        transform_all(s).to_multiset().count(transform_model(r)) == s.to_multiset().count(r),
    decreases s.len(),
{
    if s.len() == 0 {
        assert(transform_all(s) =~= Seq::<NormalizedRecordModel>::empty());
    } else {
        let sub = s.drop_last();
        let x = s.last();
        lemma_transform_all_count(sub, r);
        assert(s == sub.push(x));
        assert(transform_all(sub.push(x)) =~= transform_all(sub).push(transform_model(x)));
        if x != r {
            lemma_transform_injective(x, r);
        }
    }
}

/// Batches with the same records transform to the same deliveries, up to
/// order.
proof fn lemma_transform_all_multiset(a: Seq<SourceRecordModel>, b: Seq<SourceRecordModel>)
    requires
        a.to_multiset() == b.to_multiset(),
    ensures
        transform_all(a).to_multiset() == transform_all(b).to_multiset(),
{
    assert forall|y: NormalizedRecordModel|
        #[trigger] transform_all(a).to_multiset().count(y) == transform_all(
            b,
        ).to_multiset().count(y) by {
        if transform_all(a).to_multiset().count(y) > 0 {
            assert(transform_all(a).contains(y));
            let i = choose|i: int|
                0 <= i < transform_all(a).len() && transform_all(a)[i] == y;
            assert(y == transform_model(a[i]));
            lemma_transform_all_count(a, a[i]);
            lemma_transform_all_count(b, a[i]);
        } else if transform_all(b).to_multiset().count(y) > 0 {
            assert(transform_all(b).contains(y));
            let i = choose|i: int|
                0 <= i < transform_all(b).len() && transform_all(b)[i] == y;
            assert(y == transform_model(b[i]));
            lemma_transform_all_count(a, b[i]);
            lemma_transform_all_count(b, b[i]);
        }
    }
    assert(transform_all(a).to_multiset() =~= transform_all(b).to_multiset());
}

proof fn lemma_watermark_le_trans(a: Option<int>, b: Option<int>, c: Option<int>)
    requires
        watermark_le(a, b),
        watermark_le(b, c),
    ensures
        watermark_le(a, c),
{
}

/// One cycle never moves the watermark down.
proof fn lemma_cycle_monotonic(store: Seq<SourceRecordModel>, watermark: Option<int>)
    ensures
        watermark_le(watermark, cycle_watermark(store, watermark)),
{
    let due = due_records(store, watermark);
    if due.len() > 0 {
        lemma_batch_max_bound(due);
        let i = choose|i: int| 0 <= i < due.len() && #[trigger] due[i].timestamp == batch_max(due);
        assert(admits(watermark)(due[i]));
    }
}

/// The watermark after the first `n` of a sequence of cycles, each fetching
/// from the store contents it finds.
pub open spec fn watermark_after(
    stores: Seq<Seq<SourceRecordModel>>,
    initial: Option<int>,
    n: int,
) -> Option<int>
    decreases n,
{
    if n <= 0 {
        initial
    } else {
        cycle_watermark(stores[n - 1], watermark_after(stores, initial, n - 1))
    }
}

/// Monotonic watermark: over any sequence of cycles, against any store
/// contents each cycle finds, the watermark never decreases.
pub proof fn lemma_watermark_monotonic(
    stores: Seq<Seq<SourceRecordModel>>,
    initial: Option<int>,
    i: int,
    j: int,
)
    requires
        0 <= i <= j <= stores.len(),
    ensures
        watermark_le(watermark_after(stores, initial, i), watermark_after(stores, initial, j)),
    decreases j - i,
{
    if i < j {
        lemma_watermark_monotonic(stores, initial, i, j - 1);
        lemma_cycle_monotonic(stores[j - 1], watermark_after(stores, initial, j - 1));
        lemma_watermark_le_trans(
            watermark_after(stores, initial, i),
            watermark_after(stores, initial, j - 1),
            watermark_after(stores, initial, j),
        );
    }
}

/// Never lost: a record the store holds below no watermark — one a fetch
/// owes — is delivered by the cycle exactly as often as the store holds it
/// (so at least once), and the watermark does not advance past its timestamp
/// without that delivery.
pub proof fn lemma_no_record_lost(
    store: Seq<SourceRecordModel>,
    watermark: Option<int>,
    r: SourceRecordModel,
)
    requires
        due_records(store, watermark).to_multiset().count(r) > 0,
    ensures
        cycle_output(store, watermark).to_multiset().count(transform_model(r)) == due_records(
            store,
            watermark,
        ).to_multiset().count(r),
        watermark_le(Option::Some(r.timestamp), cycle_watermark(store, watermark)),
{
    let due = due_records(store, watermark);
    lemma_transform_all_count(due, r);
    assert(due.contains(r));
    let i = choose|i: int| 0 <= i < due.len() && due[i] == r;
    lemma_batch_max_bound(due);
    assert(due[i].timestamp <= batch_max(due));
}

/// The tail loop: owns the watermark (unset at start, never persisted) and
/// the control state. Exactly one driving sequence steps it.
pub struct TailLoop {
    state: LoopState,
    watermark: Option<i64>,
}

impl TailLoop {
    /// The control state the loop is in.
    pub closed spec fn loop_state(&self) -> LoopState {
        self.state
    }

    /// The watermark: the highest timestamp among all records ever delivered,
    /// or unset if none were.
    pub closed spec fn current_watermark(&self) -> Option<int> {
        watermark_model(self.watermark)
    }

    /// A fresh loop: idle, watermark unset, so the first fetch delivers
    /// everything available.
    pub fn new() -> (t: TailLoop)
        ensures
            t.loop_state() == LoopState::Idle,
            t.current_watermark() == Option::<int>::None,
    {
        TailLoop { state: LoopState::Idle, watermark: Option::None }
    }

    /// The control state, as a value.
    pub fn state(&self) -> (s: LoopState)
        ensures
            s == self.loop_state(),
    {
        self.state
    }

    /// The watermark, as a value.
    pub fn watermark(&self) -> (w: Option<i64>)
        ensures
            watermark_model(w) == self.current_watermark(),
    {
        self.watermark
    }

    /// Starts a cycle: the loop turns to fetching and hands the driver the
    /// watermark to fetch beyond.
    pub fn poll_request(&mut self) -> (w: Option<i64>)
        requires
            old(self).loop_state() == LoopState::Idle || old(self).loop_state()
                == LoopState::Backoff,
        ensures
            final(self).loop_state() == LoopState::Fetching,
            final(self).current_watermark() == old(self).current_watermark(),
            watermark_model(w) == old(self).current_watermark(),
    {
        self.state = LoopState::Fetching;
        self.watermark
    }

    /// Takes the outcome of the fetch the driver ran.
    ///
    /// A failed query aborts the cycle: nothing is delivered, the watermark
    /// stays where it was (the same range is retried), and the loop backs
    /// off. An empty batch likewise delivers nothing, moves nothing, and
    /// backs off. A non-empty batch is transformed record by record in the
    /// order received, the watermark advances to the batch's true maximum
    /// timestamp, and the loop turns to processing: the driver emits the
    /// returned records, then calls `finish_cycle`.
    ///
    /// The batch must be what the fetch contract promises: only records
    /// strictly newer than the watermark the cycle polled with.
    pub fn handle_fetch(&mut self, outcome: FetchOutcome) -> (out: Vec<NormalizedRecord>)
        requires
            old(self).loop_state() == LoopState::Fetching,
            outcome matches FetchOutcome::Records(batch) ==> forall|i: int|
                0 <= i < batch@.len() ==> admitted(
                    old(self).current_watermark(),
                    #[trigger] batch@[i]@.timestamp,
                ),
        ensures
            final(self).current_watermark() == (match outcome {
                FetchOutcome::Records(batch) => next_watermark(
                    old(self).current_watermark(),
                    source_models(batch@),
                ),
                FetchOutcome::QueryFailed => old(self).current_watermark(),
            }),
            watermark_le(old(self).current_watermark(), final(self).current_watermark()),
            match outcome {
                FetchOutcome::Records(batch) => {
                    &&& normalized_models(out@) == transform_all(source_models(batch@))
                    &&& final(self).loop_state() == (if batch@.len() == 0 {
                        LoopState::Backoff
                    } else {
                        LoopState::Processing
                    })
                },
                FetchOutcome::QueryFailed => {
                    &&& out@.len() == 0
                    &&& final(self).loop_state() == LoopState::Backoff
                },
            },
    {
        match outcome {
            FetchOutcome::QueryFailed => {
                self.state = LoopState::Backoff;
                Vec::new()
            },
            FetchOutcome::Records(batch) => {
                if batch.len() == 0 {
                    self.state = LoopState::Backoff;
                    let out: Vec<NormalizedRecord> = Vec::new();
                    proof {
                        assert(source_models(batch@) =~= Seq::<SourceRecordModel>::empty());
                        assert(normalized_models(out@) =~= transform_all(source_models(batch@)));
                    }
                    out
                } else {
                    self.state = LoopState::Processing;
                    let ghost wm0 = old(self).current_watermark();
                    let ghost bm = source_models(batch@);
                    let ghost target = transform_all(bm);
                    let mut out: Vec<NormalizedRecord> = Vec::new();
                    let mut max_ts: i64 = batch[0].timestamp;
                    let mut i: usize = 0;
                    proof {
                        lemma_models_index(batch@, 0);
                        assert(normalized_models(out@) =~= target.take(0int));
                    }
                    while i < batch.len()
                        invariant
                            i <= batch@.len(),
                            batch@.len() > 0,
                            bm == source_models(batch@),
                            bm.len() == batch@.len(),
                            target == transform_all(bm),
                            target.len() == bm.len(),
                            normalized_models(out@) == target.take(i as int),
                            if i == 0 {
                                max_ts as int == batch@[0]@.timestamp
                            } else {
                                max_ts as int == batch_max(bm.take(i as int))
                            },
                        decreases batch@.len() - i,
                    {
                        let r = &batch[i];
                        let n = transform(r);
                        let ghost out0 = out@;
                        out.push(n);
                        if r.timestamp > max_ts {
                            max_ts = r.timestamp;
                        }
                        proof {
                            lemma_models_index(batch@, i as int);
                            lemma_norm_models_push(out0, out@.last());
                            assert(out@ == out0.push(out@.last()));
                            assert(target[i as int] == transform_model(bm[i as int]));
                            assert(target.take(i + 1) =~= target.take(i as int).push(
                                target[i as int],
                            ));
                            let pre = bm.take(i as int);
                            let cur = bm.take(i + 1);
                            assert(cur.drop_last() =~= pre);
                            assert(cur.last() == bm[i as int]);
                            if i == 0 {
                                assert(cur.len() == 1);
                                assert(batch_max(cur) == bm[0].timestamp);
                            } else {
                                assert(batch_max(cur) == (if cur.last().timestamp > batch_max(
                                    cur.drop_last(),
                                ) {
                                    cur.last().timestamp
                                } else {
                                    batch_max(cur.drop_last())
                                }));
                            }
                        }
                        i = i + 1;
                    }
                    self.watermark = Option::Some(max_ts);
                    proof {
                        assert(bm.take(bm.len() as int) =~= bm);
                        assert(target.take(target.len() as int) =~= target);
                        // the maximum is a batch timestamp, newer than the old
                        // watermark when one was set
                        if wm0 is Some {
                            lemma_batch_max_bound(bm);
                            let k = choose|k: int|
                                0 <= k < bm.len() && #[trigger] bm[k].timestamp == batch_max(bm);
                            lemma_models_index(batch@, k);
                        }
                    }
                    out
                }
            },
        }
    }

    /// Ends the processing of a delivered batch: the loop returns to idle.
    /// Emission failures do not come back here: delivery is at-least-once,
    /// and the watermark keeps its advance.
    pub fn finish_cycle(&mut self)
        requires
            old(self).loop_state() == LoopState::Processing,
        ensures
            final(self).loop_state() == LoopState::Idle,
            final(self).current_watermark() == old(self).current_watermark(),
    {
        self.state = LoopState::Idle;
    }

    /// One full cycle against a modelled store: poll, fetch, process. The
    /// returned records are what the cycle delivers, newest first; the caller
    /// emits them. An empty cycle delivers nothing, leaves the watermark
    /// unchanged, and backs off.
    pub fn run_cycle(&mut self, store: &Store) -> (out: Vec<NormalizedRecord>)
        requires
            old(self).loop_state() == LoopState::Idle || old(self).loop_state()
                == LoopState::Backoff,
        ensures
            final(self).current_watermark() == cycle_watermark(
                store.contents(),
                old(self).current_watermark(),
            ),
            watermark_le(old(self).current_watermark(), final(self).current_watermark()),
            normalized_models(out@).to_multiset() == cycle_output(
                store.contents(),
                old(self).current_watermark(),
            ).to_multiset(),
            out@.len() == due_records(store.contents(), old(self).current_watermark()).len(),
            sorted_descending_normalized(normalized_models(out@)),
            due_records(store.contents(), old(self).current_watermark()).len() == 0 ==> {
                &&& final(self).current_watermark() == old(self).current_watermark()
                &&& out@.len() == 0
                &&& final(self).loop_state() == LoopState::Backoff
            },
            due_records(store.contents(), old(self).current_watermark()).len() > 0
                ==> final(self).loop_state() == LoopState::Idle,
    {
        let ghost wm0 = old(self).current_watermark();
        let ghost due = due_records(store.contents(), wm0);
        let w = self.poll_request();
        let batch = store.fetch(w);
        let ghost bm = source_models(batch@);
        proof {
            assert forall|i: int| 0 <= i < batch@.len() implies admitted(
                wm0,
                #[trigger] batch@[i]@.timestamp,
            ) by {
                lemma_models_index(batch@, i);
            }
        }
        let nonempty = batch.len() > 0;
        let out = self.handle_fetch(FetchOutcome::Records(batch));
        proof {
            if due.len() > 0 {
                lemma_batch_max_multiset(bm, due);
            }
            lemma_transform_all_multiset(bm, due);
            // delivery order follows the batch: descending timestamps survive
            // the transform
            assert forall|i: int, j: int|
                0 <= i < j < normalized_models(out@).len() implies normalized_models(
                out@,
            )[i].timestamp >= normalized_models(out@)[j].timestamp by {
                assert(normalized_models(out@)[i] == transform_model(bm[i]));
                assert(normalized_models(out@)[j] == transform_model(bm[j]));
            }
        }
        if nonempty {
            self.finish_cycle();
        }
        out
    }
}

} // verus!
