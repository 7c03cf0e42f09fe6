//! Keeping account of the samples of an export: every sample is written
//! exactly once, in the order in which the samples of its stream were taken
//! in, whatever the filter lets through of its columns; every sample written
//! is counted; the span of the statistics reaches from the least to the
//! greatest time written; and the lists by which the export counts runs and
//! notes paths and streams hold each of them once.

use crate::export::{
    batch_drained, batch_new, batch_push, earliest, flush_at, flush_first, flush_stream_spec,
    fresh_appender, handle_discontinuity_spec, joined, keyed, latest, lemma_selection_traces,
    marked_first, replay, run_bumped, select_columns, settle, splits, stream_path, with_text,
    write_sample_spec, AppenderView, ColumnSeriesView, ExportActionView, PendingBatchView,
    RunCountersView, RunId, RunSplitLevel, SplitPolicy,
};
use crate::sample::{lemma_time_order, time_before, SampleView, TimePoint};
use crate::seqs::{first_where, lemma_first_where, lemma_first_where_bounds};
use vstd::prelude::*;

verus! {

/// Names one stream: the route of its device and its id.
pub type Key = (Seq<u8>, u8);

/// The sample numbers that a list of actions writes for a stream, in order.
pub open spec fn written_for(actions: Seq<ExportActionView>, key: Key) -> Seq<u32>
    decreases actions.len(),
{
    if actions.len() == 0 {
        Seq::empty()
    } else {
        written_for(actions.drop_last(), key) + match actions.last() {
            ExportActionView::Write(w) => if w.key == key {
                w.sample_numbers
            } else {
                Seq::empty()
            },
            ExportActionView::Trace { .. } => Seq::empty(),
        }
    }
}

/// The sample numbers of a stream that wait to be written.
pub open spec fn waiting_for(st: AppenderView, key: Key) -> Seq<u32> {
    let i = first_where(st.pending, keyed::<Key, PendingBatchView>(key));
    if i < st.pending.len() {
        st.pending[i].1.sample_numbers
    } else {
        Seq::empty()
    }
}

/// The numbers of the samples of a stream in a run of samples, in order.
pub open spec fn taken_for(samples: Seq<(SampleView, Key)>, key: Key) -> Seq<u32>
    decreases samples.len(),
{
    if samples.len() == 0 {
        Seq::empty()
    } else if samples.last().1 == key {
        taken_for(samples.drop_last(), key).push(samples.last().0.n)
    } else {
        taken_for(samples.drop_last(), key)
    }
}

/// Whether an export is tidy: no stream has two batches, and every batch has
/// as many sample numbers as times.
pub open spec fn tidy(st: AppenderView) -> bool {
    &&& forall|i: int, j: int|
        0 <= i < j < st.pending.len() ==> (#[trigger] st.pending[i]).0 != (
        #[trigger] st.pending[j]).0
    &&& forall|i: int|
        0 <= i < st.pending.len() ==> (#[trigger] st.pending[i]).1.sample_numbers.len()
            == st.pending[i].1.timestamps.len()
}

/// Reports of the filter's decisions write nothing.
pub proof fn lemma_traces_write_nothing(actions: Seq<ExportActionView>, key: Key)
    requires
        forall|j: int| 0 <= j < actions.len() ==> (#[trigger] actions[j]) is Trace,
    ensures
        written_for(actions, key).len() == 0,
    decreases actions.len(),
{
    if actions.len() > 0 {
        let head = actions.drop_last();
        assert forall|j: int| 0 <= j < head.len() implies (#[trigger] head[j]) is Trace by {
            assert(head[j] == actions[j]);
        }
        lemma_traces_write_nothing(head, key);
        assert(actions.last() == actions[actions.len() - 1]);
    }
}

/// What two lists of actions write for a stream, one after the other, is what
/// the first writes followed by what the second writes.
pub proof fn lemma_written_joined(a: Seq<ExportActionView>, b: Seq<ExportActionView>, key: Key)
    ensures
        written_for(a + b, key) == written_for(a, key) + written_for(b, key),
    decreases b.len(),
{
    if b.len() == 0 {
        assert(a + b =~= a);
        assert(written_for(a, key) + Seq::<u32>::empty() =~= written_for(a, key));
    } else {
        let all = a + b;
        assert(all.drop_last() =~= a + b.drop_last());
        assert(all.last() == b.last());
        lemma_written_joined(a, b.drop_last(), key);
        let tail = match b.last() {
            ExportActionView::Write(w) => if w.key == key {
                w.sample_numbers
            } else {
                Seq::empty()
            },
            ExportActionView::Trace { .. } => Seq::empty(),
        };
        assert((written_for(a, key) + written_for(b.drop_last(), key)) + tail =~= written_for(
            a,
            key,
        ) + (written_for(b.drop_last(), key) + tail));
    }
}

/// Whether two lists of batches belong to the same streams, in the same
/// order.
pub open spec fn same_keys(a: Seq<(Key, PendingBatchView)>, b: Seq<(Key, PendingBatchView)>)
    -> bool {
    a.len() == b.len() && forall|i: int| 0 <= i < a.len() ==> (#[trigger] a[i]).0 == b[i].0
}

/// In lists of batches that belong to the same streams, a stream is found at
/// the same place.
pub proof fn lemma_same_place(
    a: Seq<(Key, PendingBatchView)>,
    b: Seq<(Key, PendingBatchView)>,
    key: Key,
)
    requires
        same_keys(a, b),
    ensures
        first_where(a, keyed::<Key, PendingBatchView>(key)) == first_where(
            b,
            keyed::<Key, PendingBatchView>(key),
        ),
{
    let p = keyed::<Key, PendingBatchView>(key);
    lemma_first_where_bounds(a, p);
    let k = first_where(a, p);
    assert forall|j: int| 0 <= j < k implies !p(#[trigger] b[j]) by {
        assert(!p(a[j]));
    }
    if k < a.len() {
        assert(p(a[k]));
    }
    lemma_first_where(b, p, k);
}

/// With distinct streams, the batch at a place is the batch of its stream.
pub proof fn lemma_place_of(st: AppenderView, i: int)
    requires
        tidy(st),
        0 <= i < st.pending.len(),
    ensures
        first_where(st.pending, keyed::<Key, PendingBatchView>(st.pending[i].0)) == i,
{
    let p = keyed::<Key, PendingBatchView>(st.pending[i].0);
    assert forall|j: int| 0 <= j < i implies !p(#[trigger] st.pending[j]) by {}
    lemma_first_where(st.pending, p, i);
}

/// Flushing a stream writes what waited for it and leaves
/// nothing of it waiting; what waits for other streams stays.
pub proof fn lemma_flush_at_accounts(st: AppenderView, i: int, key: Key)
    requires
        tidy(st),
        0 <= i < st.pending.len(),
    ensures
        tidy(flush_at(st, i).0),
        same_keys(st.pending, flush_at(st, i).0.pending),
        written_for(flush_at(st, i).1, key) + waiting_for(flush_at(st, i).0, key) == waiting_for(
            st,
            key,
        ),
        st.pending[i].0 == key ==> waiting_for(flush_at(st, i).0, key).len() == 0,
{
    let (k, batch) = st.pending[i];
    let after = flush_at(st, i).0;
    let actions = flush_at(st, i).1;
    lemma_place_of(st, i);
    if batch.timestamps.len() == 0 {
        assert(written_for(actions, key) + waiting_for(st, key) =~= waiting_for(st, key));
    } else {
        let drained = AppenderView {
            pending: st.pending.update(i, (k, batch_drained(batch))),
            ..st
        };
        lemma_selection_traces(
            st.filter,
            st.debug,
            st.seen_debug,
            k.0,
            batch.stream_metadata.name,
            batch.columns,
        );
        let trace = select_columns(
            st.filter,
            st.debug,
            st.seen_debug,
            k.0,
            batch.stream_metadata.name,
            batch.columns,
        ).trace;
        lemma_traces_write_nothing(trace, key);
        assert(actions.drop_last() =~= trace);
        assert(actions.last() is Write);
        assert(written_for(actions, key) =~= if key == k {
            batch.sample_numbers
        } else {
            Seq::<u32>::empty()
        });
        assert(after.pending == drained.pending);
        lemma_same_place(st.pending, after.pending, key);
        if key == k {
            assert(waiting_for(after, key) =~= Seq::<u32>::empty());
            assert(batch.sample_numbers + Seq::<u32>::empty() =~= batch.sample_numbers);
        } else {
            lemma_first_where_bounds(st.pending, keyed::<Key, PendingBatchView>(key));
            assert(Seq::<u32>::empty() + waiting_for(st, key) =~= waiting_for(st, key));
        }
    }
}

/// Making a stream begin a run changes nothing of what waits.
pub proof fn lemma_marked_first_accounts(st: AppenderView, i: int, key: Key)
    requires
        tidy(st),
        0 <= i < st.pending.len(),
    ensures
        tidy(marked_first(st, i)),
        same_keys(st.pending, marked_first(st, i).pending),
        waiting_for(marked_first(st, i), key) == waiting_for(st, key),
{
    let after = marked_first(st, i);
    lemma_same_place(st.pending, after.pending, key);
    lemma_first_where_bounds(st.pending, keyed::<Key, PendingBatchView>(key));
    assert forall|a: int, b: int| 0 <= a < b < after.pending.len() implies (
    #[trigger] after.pending[a]).0 != (#[trigger] after.pending[b]).0 by {
        assert(st.pending[a].0 != st.pending[b].0);
    }
    assert forall|a: int| 0 <= a < after.pending.len() implies (
    #[trigger] after.pending[a]).1.sample_numbers.len() == after.pending[a].1.timestamps.len() by {
        assert(st.pending[a].1.sample_numbers.len() == st.pending[a].1.timestamps.len());
    }
}

/// Flushing streams writes what waited for them; what is
/// written for a stream and what still waits for it are together what waited
/// for it before.
pub proof fn lemma_flush_first_accounts(
    st: AppenderView,
    n: nat,
    device: Option<Seq<u8>>,
    mark: bool,
    key: Key,
)
    requires
        tidy(st),
        n <= st.pending.len(),
    ensures
        tidy(flush_first(st, n, device, mark).0),
        same_keys(st.pending, flush_first(st, n, device, mark).0.pending),
        written_for(flush_first(st, n, device, mark).1, key) + waiting_for(
            flush_first(st, n, device, mark).0,
            key,
        ) == waiting_for(st, key),
    decreases n,
{
    if n == 0 {
        assert(Seq::<u32>::empty() + waiting_for(st, key) =~= waiting_for(st, key));
    } else {
        lemma_flush_first_accounts(st, (n - 1) as nat, device, mark, key);
        let (st1, done) = flush_first(st, (n - 1) as nat, device, mark);
        let i = n - 1;
        if device is Some && st1.pending[i].0.0 != device->Some_0 {
        } else {
            lemma_flush_at_accounts(st1, i, key);
            let (st2, more) = flush_at(st1, i);
            if mark {
                lemma_marked_first_accounts(st2, i, key);
            }
            lemma_written_joined(done, more, key);
            assert((written_for(done, key) + written_for(more, key)) + waiting_for(st2, key)
                =~= written_for(done, key) + (written_for(more, key) + waiting_for(st2, key)));
        }
    }
}

/// Flushing all streams leaves nothing waiting.
pub proof fn lemma_flush_all_empties(st: AppenderView, n: nat, key: Key)
    requires
        tidy(st),
        n <= st.pending.len(),
    ensures
        first_where(st.pending, keyed::<Key, PendingBatchView>(key)) < n ==> waiting_for(
            flush_first(st, n, None, false).0,
            key,
        ).len() == 0,
    decreases n,
{
    lemma_first_where_bounds(st.pending, keyed::<Key, PendingBatchView>(key));
    if n > 0 {
        lemma_flush_all_empties(st, (n - 1) as nat, key);
        lemma_flush_first_accounts(st, (n - 1) as nat, None, false, key);
        let st1 = flush_first(st, (n - 1) as nat, None, false).0;
        let i = n - 1;
        lemma_flush_at_accounts(st1, i, key);
        lemma_same_place(st.pending, st1.pending, key);
        lemma_first_where_bounds(st.pending, keyed::<Key, PendingBatchView>(key));
        let place = first_where(st.pending, keyed::<Key, PendingBatchView>(key));
        let st2 = flush_at(st1, i).0;
        assert(flush_first(st, n, None, false).0 == st2);
        if place == i {
            assert(st1.pending[i].0 == st.pending[i].0);
            assert(st.pending[i].0 == key);
        } else if place < i {
            let w = written_for(flush_at(st1, i).1, key);
            assert(w + waiting_for(st2, key) == waiting_for(st1, key));
            assert((w + waiting_for(st2, key)).len() == w.len() + waiting_for(st2, key).len());
        }
    }
}

/// A discontinuity writes what waited for the streams that
/// it flushes; what is written for a stream and what still waits for it are
/// together what waited for it before.
pub proof fn lemma_discontinuity_accounts(st: AppenderView, at: Key, key: Key)
    requires
        tidy(st),
    ensures
        tidy(handle_discontinuity_spec(st, at).0),
        same_keys(st.pending, handle_discontinuity_spec(st, at).0.pending),
        written_for(handle_discontinuity_spec(st, at).1, key) + waiting_for(
            handle_discontinuity_spec(st, at).0,
            key,
        ) == waiting_for(st, key),
{
    let p = keyed::<Key, PendingBatchView>(at);
    match st.runs.level {
        RunSplitLevel::Unsplit => {
            lemma_flush_stream_accounts(st, at, key);
        },
        RunSplitLevel::PerStream => {
            lemma_flush_stream_accounts(st, at, key);
            let flushed = flush_stream_spec(st, at).0;
            lemma_first_where_bounds(flushed.pending, p);
            let i = first_where(flushed.pending, p);
            if i < flushed.pending.len() {
                lemma_marked_first_accounts(flushed, i, key);
            }
        },
        RunSplitLevel::PerDevice => {
            lemma_flush_first_accounts(st, st.pending.len(), Some(at.0), true, key);
        },
        RunSplitLevel::Global => {
            lemma_flush_first_accounts(st, st.pending.len(), None, true, key);
        },
    }
    let mid = match st.runs.level {
        RunSplitLevel::Unsplit => flush_stream_spec(st, at).0,
        RunSplitLevel::PerStream => {
            let flushed = flush_stream_spec(st, at).0;
            let i = first_where(flushed.pending, p);
            if i < flushed.pending.len() {
                marked_first(flushed, i)
            } else {
                flushed
            }
        },
        RunSplitLevel::PerDevice => flush_first(st, st.pending.len(), Some(at.0), true).0,
        RunSplitLevel::Global => flush_first(st, st.pending.len(), None, true).0,
    };
    let after = handle_discontinuity_spec(st, at).0;
    assert(after.pending == mid.pending);
    assert(waiting_for(after, key) == waiting_for(mid, key));
}

/// Flushing a stream by its key writes what waited for it.
pub proof fn lemma_flush_stream_accounts(st: AppenderView, at: Key, key: Key)
    requires
        tidy(st),
    ensures
        tidy(flush_stream_spec(st, at).0),
        same_keys(st.pending, flush_stream_spec(st, at).0.pending),
        written_for(flush_stream_spec(st, at).1, key) + waiting_for(
            flush_stream_spec(st, at).0,
            key,
        ) == waiting_for(st, key),
{
    let p = keyed::<Key, PendingBatchView>(at);
    lemma_first_where_bounds(st.pending, p);
    let i = first_where(st.pending, p);
    if i < st.pending.len() {
        lemma_flush_at_accounts(st, i, key);
    } else {
        assert(Seq::<u32>::empty() + waiting_for(st, key) =~= waiting_for(st, key));
    }
}

/// A sample that joins the batch of its stream keeps the export tidy and is
/// found at the place of its stream.
pub proof fn lemma_joined_tidy(st: AppenderView, sample: SampleView, at: Key)
    requires
        tidy(st),
    ensures
        tidy(joined(st, sample, at)),
        0 <= first_where(st.pending, keyed::<Key, PendingBatchView>(at)) < joined(
            st,
            sample,
            at,
        ).pending.len(),
        first_where(joined(st, sample, at).pending, keyed::<Key, PendingBatchView>(at))
            == first_where(st.pending, keyed::<Key, PendingBatchView>(at)),
{
    let p = keyed::<Key, PendingBatchView>(at);
    lemma_first_where_bounds(st.pending, p);
    let i = first_where(st.pending, p);
    let after = joined(st, sample, at);
    assert forall|a: int, b: int| 0 <= a < b < after.pending.len() implies (
    #[trigger] after.pending[a]).0 != (#[trigger] after.pending[b]).0 by {
        if b == st.pending.len() {
            assert(!p(st.pending[a]));
        } else {
            assert(st.pending[a].0 != st.pending[b].0);
        }
    }
    assert forall|a: int| 0 <= a < after.pending.len() implies (
    #[trigger] after.pending[a]).1.sample_numbers.len() == after.pending[a].1.timestamps.len() by {
        if a != i {
            assert(after.pending[a] == st.pending[a]);
        } else if i < st.pending.len() {
            assert(st.pending[i].1.sample_numbers.len() == st.pending[i].1.timestamps.len());
        }
    }
    lemma_place_of(after, i);
}

/// A sample that joins the batch of its stream waits after what waited for the
/// stream before.
pub proof fn lemma_joined_own(st: AppenderView, sample: SampleView, at: Key)
    requires
        tidy(st),
    ensures
        waiting_for(joined(st, sample, at), at) == waiting_for(st, at).push(sample.n),
{
    lemma_joined_tidy(st, sample, at);
    let p = keyed::<Key, PendingBatchView>(at);
    lemma_first_where_bounds(st.pending, p);
    let i = first_where(st.pending, p);
    let after = joined(st, sample, at);
    assert(waiting_for(after, at) == after.pending[i].1.sample_numbers);
    if i >= st.pending.len() {
        assert(Seq::<u32>::empty().push(sample.n) =~= batch_push(
            batch_new(sample),
            sample,
        ).sample_numbers);
    }
}

/// A sample that joins the batch of its stream changes nothing of what waits
/// for other streams.
pub proof fn lemma_joined_other(st: AppenderView, sample: SampleView, at: Key, key: Key)
    requires
        tidy(st),
        key != at,
    ensures
        waiting_for(joined(st, sample, at), key) == waiting_for(st, key),
{
    lemma_joined_tidy(st, sample, at);
    lemma_first_where_bounds(st.pending, keyed::<Key, PendingBatchView>(at));
    let i = first_where(st.pending, keyed::<Key, PendingBatchView>(at));
    let after = joined(st, sample, at);
    let q = keyed::<Key, PendingBatchView>(key);
    lemma_first_where_bounds(st.pending, q);
    let j = first_where(st.pending, q);
    assert forall|x: int| 0 <= x < j implies !q(#[trigger] after.pending[x]) by {
        if x != i {
            assert(after.pending[x] == st.pending[x]);
        }
    }
    if j < st.pending.len() {
        assert(after.pending[j] == st.pending[j]);
        lemma_first_where(after.pending, q, j);
    } else {
        assert forall|x: int| 0 <= x < after.pending.len() implies !q(
            #[trigger] after.pending[x],
        ) by {
            if x != i {
                assert(after.pending[x] == st.pending[x]);
            }
        }
        lemma_first_where(after.pending, q, after.pending.len() as int);
    }
}

/// What waits for a stream after a sample joined the batch of its stream.
pub proof fn lemma_joined_accounts(st: AppenderView, sample: SampleView, at: Key, key: Key)
    requires
        tidy(st),
    ensures
        tidy(joined(st, sample, at)),
        waiting_for(joined(st, sample, at), key) == if key == at {
            waiting_for(st, key).push(sample.n)
        } else {
            waiting_for(st, key)
        },
{
    lemma_joined_tidy(st, sample, at);
    if key == at {
        lemma_joined_own(st, sample, at);
    } else {
        lemma_joined_other(st, sample, at, key);
    }
}

/// A sample that joins its batch, which is flushed if it is full, adds its
/// number to what is written for its stream or waits for it.
pub proof fn lemma_settle_accounts(st: AppenderView, sample: SampleView, at: Key, key: Key)
    requires
        tidy(st),
    ensures
        tidy(settle(st, sample, at).0),
        written_for(settle(st, sample, at).1, key) + waiting_for(settle(st, sample, at).0, key)
            == if key == at {
            waiting_for(st, key).push(sample.n)
        } else {
            waiting_for(st, key)
        },
{
    lemma_joined_accounts(st, sample, at, key);
    lemma_joined_tidy(st, sample, at);
    let i = first_where(st.pending, keyed::<Key, PendingBatchView>(at));
    let st2 = joined(st, sample, at);
    if st2.pending[i].1.timestamps.len() >= st.batch_size {
        lemma_flush_at_accounts(st2, i, key);
    } else {
        assert(Seq::<u32>::empty() + waiting_for(st2, key) =~= waiting_for(st2, key));
    }
}

/// Taking in a sample adds its number to what is written for its stream or
/// waits for it, after what was there before; for other streams nothing
/// changes.
pub proof fn lemma_write_sample_accounts(st: AppenderView, sample: SampleView, at: Key, key: Key)
    requires
        tidy(st),
    ensures
        tidy(write_sample_spec(st, sample, at).0),
        written_for(write_sample_spec(st, sample, at).1, key) + waiting_for(
            write_sample_spec(st, sample, at).0,
            key,
        ) == if key == at {
            waiting_for(st, key).push(sample.n)
        } else {
            waiting_for(st, key)
        },
{
    let split = splits(st.split_policy, sample);
    let (st1, first) = if split {
        handle_discontinuity_spec(st, at)
    } else {
        (st, Seq::<ExportActionView>::empty())
    };
    if split {
        lemma_discontinuity_accounts(st, at, key);
    } else {
        assert(Seq::<u32>::empty() + waiting_for(st, key) =~= waiting_for(st, key));
    }
    let (st3, second) = settle(st1, sample, at);
    lemma_settle_accounts(st1, sample, at, key);
    lemma_written_joined(first, second, key);
    let w1 = written_for(first, key);
    let w2 = written_for(second, key);
    assert((w1 + w2) + waiting_for(st3, key) =~= w1 + (w2 + waiting_for(st3, key)));
    if key == at {
        assert(w1 + waiting_for(st1, key).push(sample.n) =~= (w1 + waiting_for(st1, key)).push(
            sample.n,
        ));
    }
}

/// After a run of samples, what was written for a stream and what waits for
/// it are together what waited for it before, followed by the numbers of its
/// samples in the run.
pub proof fn lemma_replay_accounts(st: AppenderView, samples: Seq<(SampleView, Key)>, key: Key)
    requires
        tidy(st),
    ensures
        tidy(replay(st, samples).0),
        written_for(replay(st, samples).1, key) + waiting_for(replay(st, samples).0, key)
            == waiting_for(st, key) + taken_for(samples, key),
    decreases samples.len(),
{
    if samples.len() == 0 {
        assert(Seq::<u32>::empty() + waiting_for(st, key) =~= waiting_for(st, key)
            + Seq::<u32>::empty());
    } else {
        let head = samples.drop_last();
        let (sample, at) = samples.last();
        lemma_replay_accounts(st, head, key);
        let (before, actions) = replay(st, head);
        lemma_write_sample_accounts(before, sample, at, key);
        let (after, more) = write_sample_spec(before, sample, at);
        lemma_written_joined(actions, more, key);
        let w1 = written_for(actions, key);
        let w2 = written_for(more, key);
        let held = waiting_for(st, key);
        let took = taken_for(head, key);
        assert((w1 + w2) + waiting_for(after, key) =~= w1 + (w2 + waiting_for(after, key)));
        if key == at {
            assert(w1 + waiting_for(before, key).push(sample.n) =~= (w1 + waiting_for(
                before,
                key,
            )).push(sample.n));
            assert((held + took).push(sample.n) =~= held + took.push(sample.n));
        }
    }
}

/// An export that began with nothing waiting writes for every stream exactly
/// the samples of that stream, each once, in the order in which they were taken
/// in.
pub proof fn lemma_every_sample_is_written(
    st: AppenderView,
    samples: Seq<(SampleView, Key)>,
    key: Key,
)
    requires
        st.pending.len() == 0,
    ensures
        written_for(crate::export::export_of(st, samples), key) == taken_for(samples, key),
{
    lemma_replay_accounts(st, samples, key);
    let (after, actions) = replay(st, samples);
    let n = after.pending.len();
    let (end, last) = flush_first(after, n, None, false);
    lemma_flush_first_accounts(after, n, None, false, key);
    lemma_flush_all_empties(after, n, key);
    lemma_same_place(after.pending, end.pending, key);
    lemma_first_where_bounds(after.pending, keyed::<Key, PendingBatchView>(key));
    lemma_first_where_bounds(st.pending, keyed::<Key, PendingBatchView>(key));
    assert(waiting_for(end, key).len() == 0);
    assert(waiting_for(st, key).len() == 0);
    lemma_written_joined(actions, last, key);
    let w1 = written_for(actions, key);
    let w2 = written_for(last, key);
    assert(w2 + waiting_for(end, key) =~= w2);
    assert(waiting_for(st, key) + taken_for(samples, key) =~= taken_for(samples, key));
}

/// Number of samples that wait in a list of batches.
pub open spec fn waiting_count(pending: Seq<(Key, PendingBatchView)>) -> nat
    decreases pending.len(),
{
    if pending.len() == 0 {
        0
    } else {
        waiting_count(pending.drop_last()) + pending.last().1.timestamps.len()
    }
}

/// Samples written and samples waiting, together.
pub open spec fn held_count(st: AppenderView) -> nat {
    st.stats.total_samples as nat + waiting_count(st.pending)
}

/// A batch that is put in the place of another changes the number of samples
/// that wait by the difference of the two.
pub proof fn lemma_count_update(
    pending: Seq<(Key, PendingBatchView)>,
    i: int,
    entry: (Key, PendingBatchView),
)
    requires
        0 <= i < pending.len(),
    ensures
        waiting_count(pending.update(i, entry)) + pending[i].1.timestamps.len() == waiting_count(
            pending,
        ) + entry.1.timestamps.len(),
    decreases pending.len(),
{
    let after = pending.update(i, entry);
    if i == pending.len() - 1 {
        assert(after.drop_last() =~= pending.drop_last());
    } else {
        assert(after.drop_last() =~= pending.drop_last().update(i, entry));
        lemma_count_update(pending.drop_last(), i, entry);
    }
}

/// A batch that is added to a list adds its samples to those that wait.
pub proof fn lemma_count_push(pending: Seq<(Key, PendingBatchView)>, entry: (Key, PendingBatchView))
    ensures
        waiting_count(pending.push(entry)) == waiting_count(pending) + entry.1.timestamps.len(),
{
    assert(pending.push(entry).drop_last() =~= pending);
}

/// A list of batches of which none holds a sample has no sample waiting.
pub proof fn lemma_count_none(pending: Seq<(Key, PendingBatchView)>)
    requires
        forall|i: int| 0 <= i < pending.len() ==> (#[trigger] pending[i]).1.timestamps.len() == 0,
    ensures
        waiting_count(pending) == 0,
    decreases pending.len(),
{
    if pending.len() > 0 {
        let head = pending.drop_last();
        assert forall|i: int| 0 <= i < head.len() implies (#[trigger] head[i]).1.timestamps.len()
            == 0 by {
            assert(head[i] == pending[i]);
        }
        lemma_count_none(head);
        assert(pending.last() == pending[pending.len() - 1]);
    }
}

/// Flushing a stream moves its samples from those that wait to those that are
/// counted as written, as long as the count fits.
pub proof fn lemma_flush_at_counts(st: AppenderView, i: int)
    requires
        0 <= i < st.pending.len(),
        held_count(st) <= u64::MAX,
    ensures
        held_count(flush_at(st, i).0) == held_count(st),
        flush_at(st, i).0.pending[i].1.timestamps.len() == 0,
        forall|j: int|
            0 <= j < st.pending.len() && j != i ==> (#[trigger] flush_at(st, i).0.pending[j])
                == st.pending[j],
        flush_at(st, i).0.pending.len() == st.pending.len(),
{
    let (key, batch) = st.pending[i];
    if batch.timestamps.len() > 0 {
        lemma_count_update(st.pending, i, (key, batch_drained(batch)));
    }
}

/// Flushing streams keeps the count of samples written and waiting, as long
/// as it fits; flushing all of them leaves none waiting in the streams that
/// were flushed.
pub proof fn lemma_flush_first_counts(st: AppenderView, n: nat, device: Option<Seq<u8>>, mark: bool)
    requires
        n <= st.pending.len(),
        held_count(st) <= u64::MAX,
    ensures
        held_count(flush_first(st, n, device, mark).0) == held_count(st),
        flush_first(st, n, device, mark).0.pending.len() == st.pending.len(),
        forall|j: int|
            n <= j < st.pending.len() ==> (#[trigger] flush_first(
                st,
                n,
                device,
                mark,
            ).0.pending[j]) == st.pending[j],
        device is None ==> forall|j: int|
            0 <= j < n ==> (#[trigger] flush_first(
                st,
                n,
                device,
                mark,
            ).0.pending[j]).1.timestamps.len() == 0,
    decreases n,
{
    if n > 0 {
        lemma_flush_first_counts(st, (n - 1) as nat, device, mark);
        let st1 = flush_first(st, (n - 1) as nat, device, mark).0;
        let i = n - 1;
        if device is Some && st1.pending[i].0.0 != device->Some_0 {
        } else {
            lemma_flush_at_counts(st1, i);
            let st2 = flush_at(st1, i).0;
            if mark {
                let (key, batch) = st2.pending[i];
                lemma_count_update(
                    st2.pending,
                    i,
                    (key, PendingBatchView { is_first_chunk: true, ..batch }),
                );
            }
        }
    }
}

/// A discontinuity keeps the count of samples written and waiting, as long as
/// it fits.
pub proof fn lemma_discontinuity_counts(st: AppenderView, at: Key)
    requires
        held_count(st) <= u64::MAX,
    ensures
        held_count(handle_discontinuity_spec(st, at).0) == held_count(st),
{
    let p = keyed::<Key, PendingBatchView>(at);
    lemma_first_where_bounds(st.pending, p);
    let i = first_where(st.pending, p);
    if i < st.pending.len() {
        lemma_flush_at_counts(st, i);
    }
    let flushed = flush_stream_spec(st, at).0;
    lemma_first_where_bounds(flushed.pending, p);
    let j = first_where(flushed.pending, p);
    if j < flushed.pending.len() {
        let (key, batch) = flushed.pending[j];
        lemma_count_update(
            flushed.pending,
            j,
            (key, PendingBatchView { is_first_chunk: true, ..batch }),
        );
    }
    lemma_flush_first_counts(st, st.pending.len(), Some(at.0), true);
    lemma_flush_first_counts(st, st.pending.len(), None, true);
}

/// Taking in a sample adds one to the count of samples written and waiting,
/// as long as it fits.
pub proof fn lemma_write_sample_counts(st: AppenderView, sample: SampleView, at: Key)
    requires
        held_count(st) < u64::MAX,
    ensures
        held_count(write_sample_spec(st, sample, at).0) == held_count(st) + 1,
{
    let split = splits(st.split_policy, sample);
    if split {
        lemma_discontinuity_counts(st, at);
    }
    let st1 = if split {
        handle_discontinuity_spec(st, at).0
    } else {
        st
    };
    let p = keyed::<Key, PendingBatchView>(at);
    lemma_first_where_bounds(st1.pending, p);
    let i = first_where(st1.pending, p);
    let known = if i < st1.pending.len() {
        st1.pending
    } else {
        st1.pending.push((at, batch_new(sample)))
    };
    if i >= st1.pending.len() {
        lemma_count_push(st1.pending, (at, batch_new(sample)));
    }
    lemma_count_update(known, i, (at, batch_push(known[i].1, sample)));
    let st2 = joined(st1, sample, at);
    assert(held_count(st2) == held_count(st1) + 1);
    if st2.pending[i].1.timestamps.len() >= st1.batch_size {
        lemma_flush_at_counts(st2, i);
    }
}

/// An export that began with nothing written and nothing waiting counts as
/// written, at its end, exactly the samples that it took in, as long as their
/// number fits.
pub proof fn lemma_every_sample_is_counted(st: AppenderView, samples: Seq<(SampleView, Key)>)
    requires
        st.pending.len() == 0,
        st.stats.total_samples == 0,
        samples.len() <= u64::MAX,
    ensures
        ({
            let after = replay(st, samples).0;
            flush_first(after, after.pending.len(), None, false).0.stats.total_samples
                == samples.len()
        }),
{
    lemma_replay_counts(st, samples);
    let after = replay(st, samples).0;
    lemma_flush_first_counts(after, after.pending.len(), None, false);
    lemma_count_none(flush_first(after, after.pending.len(), None, false).0.pending);
}

/// After a run of samples the count of samples written and waiting has grown
/// by their number, as long as it fits.
pub proof fn lemma_replay_counts(st: AppenderView, samples: Seq<(SampleView, Key)>)
    requires
        held_count(st) + samples.len() <= u64::MAX,
    ensures
        held_count(replay(st, samples).0) == held_count(st) + samples.len(),
    decreases samples.len(),
{
    if samples.len() > 0 {
        lemma_replay_counts(st, samples.drop_last());
        lemma_write_sample_counts(
            replay(st, samples.drop_last()).0,
            samples.last().0,
            samples.last().1,
        );
    }
}

/// The times that a list of actions writes, in order.
pub open spec fn times_written(actions: Seq<ExportActionView>) -> Seq<TimePoint>
    decreases actions.len(),
{
    if actions.len() == 0 {
        Seq::empty()
    } else {
        times_written(actions.drop_last()) + match actions.last() {
            ExportActionView::Write(w) => w.timestamps,
            ExportActionView::Trace { .. } => Seq::empty(),
        }
    }
}

/// The times that two lists of actions write, one after the other.
pub proof fn lemma_times_joined(a: Seq<ExportActionView>, b: Seq<ExportActionView>)
    ensures
        times_written(a + b) == times_written(a) + times_written(b),
    decreases b.len(),
{
    if b.len() == 0 {
        assert(a + b =~= a);
        assert(times_written(a) + Seq::<TimePoint>::empty() =~= times_written(a));
    } else {
        let all = a + b;
        assert(all.drop_last() =~= a + b.drop_last());
        assert(all.last() == b.last());
        lemma_times_joined(a, b.drop_last());
        let tail = match b.last() {
            ExportActionView::Write(w) => w.timestamps,
            ExportActionView::Trace { .. } => Seq::empty(),
        };
        assert((times_written(a) + times_written(b.drop_last())) + tail =~= times_written(a) + (
        times_written(b.drop_last()) + tail));
    }
}

/// Reports of the filter's decisions write no times.
pub proof fn lemma_traces_write_no_times(actions: Seq<ExportActionView>)
    requires
        forall|j: int| 0 <= j < actions.len() ==> (#[trigger] actions[j]) is Trace,
    ensures
        times_written(actions).len() == 0,
    decreases actions.len(),
{
    if actions.len() > 0 {
        let head = actions.drop_last();
        assert forall|j: int| 0 <= j < head.len() implies (#[trigger] head[j]) is Trace by {
            assert(head[j] == actions[j]);
        }
        lemma_traces_write_no_times(head);
        assert(actions.last() == actions[actions.len() - 1]);
    }
}

/// The earliest and the latest of two runs of times, one after the other, are
/// those of the second run with those of the first held.
pub proof fn lemma_span_joined(held: Option<TimePoint>, a: Seq<TimePoint>, b: Seq<TimePoint>)
    ensures
        earliest(held, a + b) == earliest(earliest(held, a), b),
        latest(held, a + b) == latest(latest(held, a), b),
    decreases b.len(),
{
    if b.len() == 0 {
        assert(a + b =~= a);
    } else {
        let all = a + b;
        assert(all.drop_last() =~= a + b.drop_last());
        assert(all.last() == b.last());
        lemma_span_joined(held, a, b.drop_last());
    }
}

/// Whether the span of an export, after something was done, is the span
/// before, widened by the times that were written.
pub open spec fn span_follows(
    before: AppenderView,
    after: AppenderView,
    actions: Seq<ExportActionView>,
) -> bool {
    &&& after.stats.start_time == earliest(before.stats.start_time, times_written(actions))
    &&& after.stats.end_time == latest(before.stats.end_time, times_written(actions))
}

/// The span follows what is written when one thing is done after another.
pub proof fn lemma_span_follows_joined(
    a: AppenderView,
    b: AppenderView,
    c: AppenderView,
    first: Seq<ExportActionView>,
    second: Seq<ExportActionView>,
)
    requires
        span_follows(a, b, first),
        span_follows(b, c, second),
    ensures
        span_follows(a, c, first + second),
{
    lemma_times_joined(first, second);
    lemma_span_joined(a.stats.start_time, times_written(first), times_written(second));
    lemma_span_joined(a.stats.end_time, times_written(first), times_written(second));
}

/// The span follows what is written when nothing is done.
pub proof fn lemma_span_follows_nothing(st: AppenderView)
    ensures
        span_follows(st, st, Seq::empty()),
{
}

/// Flushing a stream widens the span by the times that it writes.
pub proof fn lemma_flush_at_span(st: AppenderView, i: int)
    requires
        0 <= i < st.pending.len(),
    ensures
        span_follows(st, flush_at(st, i).0, flush_at(st, i).1),
{
    let (key, batch) = st.pending[i];
    if batch.timestamps.len() > 0 {
        let trace = select_columns(
            st.filter,
            st.debug,
            st.seen_debug,
            key.0,
            batch.stream_metadata.name,
            batch.columns,
        ).trace;
        lemma_selection_traces(
            st.filter,
            st.debug,
            st.seen_debug,
            key.0,
            batch.stream_metadata.name,
            batch.columns,
        );
        lemma_traces_write_no_times(trace);
        let actions = flush_at(st, i).1;
        assert(actions.drop_last() =~= trace);
        assert(actions.last() is Write);
        assert(times_written(actions) =~= batch.timestamps);
    }
}

/// Flushing streams widens the span by the times that it writes.
pub proof fn lemma_flush_first_span(st: AppenderView, n: nat, device: Option<Seq<u8>>, mark: bool)
    requires
        n <= st.pending.len(),
    ensures
        span_follows(st, flush_first(st, n, device, mark).0, flush_first(st, n, device, mark).1),
    decreases n,
{
    if n > 0 {
        lemma_flush_first_span(st, (n - 1) as nat, device, mark);
        crate::export::lemma_flush_first_keeps(st, (n - 1) as nat, device, mark);
        let (st1, done) = flush_first(st, (n - 1) as nat, device, mark);
        let i = n - 1;
        if device is Some && st1.pending[i].0.0 != device->Some_0 {
        } else {
            lemma_flush_at_span(st1, i);
            let (st2, more) = flush_at(st1, i);
            let st3 = if mark {
                marked_first(st2, i)
            } else {
                st2
            };
            assert(span_follows(st1, st3, more));
            lemma_span_follows_joined(st, st1, st3, done, more);
        }
    }
}

/// A discontinuity widens the span by the times that it writes.
pub proof fn lemma_discontinuity_span(st: AppenderView, at: Key)
    ensures
        span_follows(st, handle_discontinuity_spec(st, at).0, handle_discontinuity_spec(st, at).1),
{
    let p = keyed::<Key, PendingBatchView>(at);
    lemma_first_where_bounds(st.pending, p);
    let i = first_where(st.pending, p);
    if i < st.pending.len() {
        lemma_flush_at_span(st, i);
    }
    lemma_flush_first_span(st, st.pending.len(), Some(at.0), true);
    lemma_flush_first_span(st, st.pending.len(), None, true);
}

/// Taking in a sample widens the span by the times that it writes.
pub proof fn lemma_write_sample_span(st: AppenderView, sample: SampleView, at: Key)
    ensures
        span_follows(st, write_sample_spec(st, sample, at).0, write_sample_spec(st, sample, at).1),
{
    let split = splits(st.split_policy, sample);
    let (st1, first) = if split {
        handle_discontinuity_spec(st, at)
    } else {
        (st, Seq::<ExportActionView>::empty())
    };
    if split {
        lemma_discontinuity_span(st, at);
    }
    let p = keyed::<Key, PendingBatchView>(at);
    lemma_first_where_bounds(st1.pending, p);
    let i = first_where(st1.pending, p);
    let st2 = joined(st1, sample, at);
    let (st3, second) = settle(st1, sample, at);
    if st2.pending[i].1.timestamps.len() >= st1.batch_size {
        lemma_flush_at_span(st2, i);
    }
    assert(span_follows(st1, st3, second));
    lemma_span_follows_joined(st, st1, st3, first, second);
}

/// The span of an export at its end is the earliest and the latest of all the
/// times that it wrote, in the order in which it wrote them.
pub proof fn lemma_span_of_export(st: AppenderView, samples: Seq<(SampleView, Key)>)
    ensures
        ({
            let after = replay(st, samples).0;
            let end = flush_first(after, after.pending.len(), None, false).0;
            span_follows(st, end, crate::export::export_of(st, samples))
        }),
{
    lemma_replay_span(st, samples);
    let (after, actions) = replay(st, samples);
    lemma_flush_first_span(after, after.pending.len(), None, false);
    let (end, last) = flush_first(after, after.pending.len(), None, false);
    lemma_span_follows_joined(st, after, end, actions, last);
}

/// A run of samples widens the span by the times that it writes.
pub proof fn lemma_replay_span(st: AppenderView, samples: Seq<(SampleView, Key)>)
    ensures
        span_follows(st, replay(st, samples).0, replay(st, samples).1),
    decreases samples.len(),
{
    if samples.len() > 0 {
        lemma_replay_span(st, samples.drop_last());
        let (before, actions) = replay(st, samples.drop_last());
        lemma_write_sample_span(before, samples.last().0, samples.last().1);
        let (after, more) = write_sample_spec(before, samples.last().0, samples.last().1);
        lemma_span_follows_joined(st, before, after, actions, more);
    }
}

/// Whether no time of a run lies before `t`.
pub open spec fn none_before(t: TimePoint, times: Seq<TimePoint>) -> bool {
    forall|i: int| 0 <= i < times.len() ==> !time_before(#[trigger] times[i], t)
}

/// Whether no time of a run lies after `t`.
pub open spec fn none_after(t: TimePoint, times: Seq<TimePoint>) -> bool {
    forall|i: int| 0 <= i < times.len() ==> !time_before(t, #[trigger] times[i])
}

/// The earliest of a run of times is one of them, and none of them lies
/// before it; the latest is one of them, and none of them lies after it.
/// Without times there is neither.
pub proof fn lemma_span_is_least_and_greatest(times: Seq<TimePoint>)
    ensures
        times.len() == 0 ==> earliest(None, times) is None && latest(None, times) is None,
        times.len() > 0 ==> earliest(None, times) is Some && times.contains(
            earliest(None, times)->Some_0,
        ) && none_before(earliest(None, times)->Some_0, times),
        times.len() > 0 ==> latest(None, times) is Some && times.contains(
            latest(None, times)->Some_0,
        ) && none_after(latest(None, times)->Some_0, times),
    decreases times.len(),
{
    if times.len() > 0 {
        let head = times.drop_last();
        let t = times.last();
        lemma_span_is_least_and_greatest(head);
        assert(times[times.len() - 1] == t);
        let first = earliest(None, times)->Some_0;
        let last = latest(None, times)->Some_0;
        if head.len() > 0 {
            let f = earliest(None, head)->Some_0;
            let l = latest(None, head)->Some_0;
            let x = choose|x: int| 0 <= x < head.len() && head[x] == f;
            assert(times[x] == f);
            let y = choose|y: int| 0 <= y < head.len() && head[y] == l;
            assert(times[y] == l);
            assert forall|i: int| 0 <= i < times.len() implies !time_before(
                #[trigger] times[i],
                first,
            ) by {
                lemma_time_order(times[i], first, f);
                if i < head.len() {
                    assert(head[i] == times[i]);
                }
            }
            assert forall|i: int| 0 <= i < times.len() implies !time_before(
                last,
                #[trigger] times[i],
            ) by {
                lemma_time_order(l, last, times[i]);
                if i < head.len() {
                    assert(head[i] == times[i]);
                }
            }
        } else {
            assert forall|i: int| 0 <= i < times.len() implies !time_before(
                #[trigger] times[i],
                first,
            ) by {
                lemma_time_order(t, t, t);
            }
            assert forall|i: int| 0 <= i < times.len() implies !time_before(
                last,
                #[trigger] times[i],
            ) by {
                lemma_time_order(t, t, t);
            }
        }
    }
}

/// Whether every key of a list of entries has one entry.
pub open spec fn keys_once<K, V>(entries: Seq<(K, V)>) -> bool {
    forall|i: int, j: int|
        0 <= i < j < entries.len() ==> (#[trigger] entries[i]).0 != (#[trigger] entries[j]).0
}

/// Whether an export keeps each thing once: no stream and no device has two
/// run counters, no path is held twice among those reported, and no stream
/// twice among those written.
pub open spec fn kept_once(st: AppenderView) -> bool {
    &&& keys_once(st.runs.stream_runs)
    &&& keys_once(st.runs.device_runs)
    &&& st.seen_debug.no_duplicates()
    &&& st.stats.streams_written.no_duplicates()
}

/// Counting up the run of a key leaves every key with one counter.
pub proof fn lemma_run_bumped_once<K>(runs: Seq<(K, RunId)>, key: K)
    requires
        keys_once(runs),
    ensures
        keys_once(run_bumped(runs, key)),
{
    let p = keyed::<K, RunId>(key);
    lemma_first_where_bounds(runs, p);
    let k = first_where(runs, p);
    let after = run_bumped(runs, key);
    assert forall|i: int, j: int| 0 <= i < j < after.len() implies (#[trigger] after[i]).0 != (
    #[trigger] after[j]).0 by {
        if k < runs.len() {
            assert(p(runs[k]));
            assert(runs[i].0 != runs[j].0);
        } else if j < runs.len() {
            assert(runs[i].0 != runs[j].0);
        } else {
            assert(!p(runs[i]));
        }
    }
}

/// A text that is added to a list unless it is there leaves every text in
/// the list once.
pub proof fn lemma_with_text_once(texts: Seq<Seq<char>>, text: Seq<char>)
    requires
        texts.no_duplicates(),
    ensures
        with_text(texts, text).no_duplicates(),
{
}

/// Passing columns through the filter leaves every path once among those on
/// which a decision was reported.
pub proof fn lemma_selection_once(
    filter: Option<Seq<char>>,
    debug: bool,
    seen: Seq<Seq<char>>,
    route: Seq<u8>,
    stream: Seq<char>,
    series: Seq<ColumnSeriesView>,
)
    requires
        seen.no_duplicates(),
    ensures
        select_columns(filter, debug, seen, route, stream, series).seen.no_duplicates(),
    decreases series.len(),
{
    if series.len() > 0 {
        lemma_selection_once(filter, debug, seen, route, stream, series.drop_last());
    }
}

/// Flushing a stream keeps each thing once.
pub proof fn lemma_flush_at_once(st: AppenderView, i: int)
    requires
        kept_once(st),
        0 <= i < st.pending.len(),
    ensures
        kept_once(flush_at(st, i).0),
{
    let (key, batch) = st.pending[i];
    if batch.timestamps.len() > 0 {
        let stream = batch.stream_metadata.name;
        lemma_selection_once(st.filter, st.debug, st.seen_debug, key.0, stream, batch.columns);
        lemma_with_text_once(st.stats.streams_written, stream_path(key.0, stream));
    }
}

/// Flushing streams keeps each thing once.
pub proof fn lemma_flush_first_once(st: AppenderView, n: nat, device: Option<Seq<u8>>, mark: bool)
    requires
        tidy(st),
        kept_once(st),
        n <= st.pending.len(),
    ensures
        kept_once(flush_first(st, n, device, mark).0),
    decreases n,
{
    if n > 0 {
        lemma_flush_first_once(st, (n - 1) as nat, device, mark);
        let st1 = flush_first(st, (n - 1) as nat, device, mark).0;
        let i = n - 1;
        lemma_flush_first_accounts(st, (n - 1) as nat, device, mark, st.pending[i].0);
        if device is Some && st1.pending[i].0.0 != device->Some_0 {
        } else {
            lemma_flush_at_once(st1, i);
        }
    }
}

/// Counting up the run that the level assigns to a stream leaves every
/// stream and every device with one counter.
pub proof fn lemma_advanced_once(runs: RunCountersView, key: Key)
    requires
        keys_once(runs.stream_runs),
        keys_once(runs.device_runs),
    ensures
        keys_once(runs.advanced(key).stream_runs),
        keys_once(runs.advanced(key).device_runs),
{
    lemma_run_bumped_once(runs.stream_runs, key);
    lemma_run_bumped_once(runs.device_runs, key.0);
}

/// A discontinuity keeps each thing once.
pub proof fn lemma_discontinuity_once(st: AppenderView, at: Key)
    requires
        tidy(st),
        kept_once(st),
    ensures
        kept_once(handle_discontinuity_spec(st, at).0),
{
    let p = keyed::<Key, PendingBatchView>(at);
    lemma_first_where_bounds(st.pending, p);
    let i = first_where(st.pending, p);
    let flushed = match st.runs.level {
        RunSplitLevel::Unsplit | RunSplitLevel::PerStream => flush_stream_spec(st, at).0,
        RunSplitLevel::PerDevice => flush_first(st, st.pending.len(), Some(at.0), true).0,
        RunSplitLevel::Global => flush_first(st, st.pending.len(), None, true).0,
    };
    match st.runs.level {
        RunSplitLevel::Unsplit | RunSplitLevel::PerStream => {
            if i < st.pending.len() {
                lemma_flush_at_once(st, i);
            }
        },
        RunSplitLevel::PerDevice => {
            lemma_flush_first_once(st, st.pending.len(), Some(at.0), true);
        },
        RunSplitLevel::Global => {
            lemma_flush_first_once(st, st.pending.len(), None, true);
        },
    }
    assert(kept_once(flushed));
    lemma_advanced_once(flushed.runs, at);
}

/// Taking in a sample keeps each thing once.
pub proof fn lemma_write_sample_once(st: AppenderView, sample: SampleView, at: Key)
    requires
        tidy(st),
        kept_once(st),
    ensures
        kept_once(write_sample_spec(st, sample, at).0),
{
    let split = splits(st.split_policy, sample);
    let st1 = if split {
        handle_discontinuity_spec(st, at).0
    } else {
        st
    };
    if split {
        lemma_discontinuity_accounts(st, at, at);
        lemma_discontinuity_once(st, at);
    }
    lemma_joined_tidy(st1, sample, at);
    let i = first_where(st1.pending, keyed::<Key, PendingBatchView>(at));
    let st2 = joined(st1, sample, at);
    if st2.pending[i].1.timestamps.len() >= st1.batch_size {
        lemma_flush_at_once(st2, i);
    }
}

/// An export that keeps each thing once does so after any run of samples, and
/// after all that waits was written at the end: the lists by which it counts
/// runs and notes paths and streams hold what maps and sets of them would.
pub proof fn lemma_export_keeps_once(st: AppenderView, samples: Seq<(SampleView, Key)>)
    requires
        tidy(st),
        kept_once(st),
    ensures
        tidy(replay(st, samples).0),
        kept_once(replay(st, samples).0),
        kept_once(
            flush_first(
                replay(st, samples).0,
                replay(st, samples).0.pending.len(),
                None,
                false,
            ).0,
        ),
    decreases samples.len(),
{
    if samples.len() > 0 {
        let head = samples.drop_last();
        let (sample, at) = samples.last();
        lemma_export_keeps_once(st, head);
        let before = replay(st, head).0;
        lemma_write_sample_accounts(before, sample, at, at);
        lemma_write_sample_once(before, sample, at);
    }
    let after = replay(st, samples).0;
    lemma_flush_first_once(after, after.pending.len(), None, false);
}

/// An export begins tidy and with each thing once.
pub proof fn lemma_fresh_is_kept_once(
    filter: Option<Seq<char>>,
    compress: bool,
    debug: bool,
    batch_size: usize,
    split_policy: SplitPolicy,
    split_level: RunSplitLevel,
)
    ensures
        tidy(fresh_appender(filter, compress, debug, batch_size, split_policy, split_level)),
        kept_once(fresh_appender(filter, compress, debug, batch_size, split_policy, split_level)),
{
}

} // verus!
