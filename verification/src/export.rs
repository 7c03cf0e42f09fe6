//! Planning the export of samples to a columnar file.
//!
//! Samples are gathered per stream into batches. A batch is handed out for
//! writing when it is full, when the series breaks in a way that the split
//! policy minds, and at the end. The appender decides what is written where;
//! writing it is left to the caller, who gets the decisions as a list of
//! actions to carry out in order.

use crate::cli::SplitLevel;
use crate::filter::{column_path, path_matches, ColumnFilter};
use crate::meta::{
    BufferType, ColumnMetadata, ColumnMetadataView, SegmentMetadata, SegmentMetadataView,
    StreamMetadata, StreamMetadataView,
};
use crate::route::{first_slash, lemma_first_slash, route_text, DeviceRoute};
use crate::sample::{
    is_time_before, sample_end_time, time_before, Boundary, BoundaryReason, ColumnData,
    ColumnView, FloatValue, Sample, SampleView, StreamKey, TimePoint,
};
use crate::seqs::{first_where, lemma_first_where, lemma_first_where_bounds};
use crate::text::{
    chars_of, option_text, push_range, push_str, push_zero_padded, string_of, texts_view,
    zero_padded,
};
use vstd::prelude::*;

verus! {

/// Counts the runs of a stream, of a device or of the whole file.
pub type RunId = u64;

/// Samples per chunk of a dataset, and the default size of a batch.
pub const DATASET_CHUNK: usize = 65536;

/// When a break in the sample sequence starts a new run in the exported file.
#[derive(Clone, Copy, Debug, PartialEq, Eq, Structural)]
pub enum SplitPolicy {
    /// Split on any discontinuity.
    Continuous,
    /// Split only where time goes backward; gaps are allowed.
    Monotonic,
}

impl Default for SplitPolicy {
    fn default() -> (r: SplitPolicy)
        ensures
            r == SplitPolicy::Continuous,
    {
        SplitPolicy::Continuous
    }
}

/// How finely runs are told apart in the exported file.
#[derive(Clone, Copy, Debug, PartialEq, Eq, Structural)]
pub enum RunSplitLevel {
    /// No run splitting: `/{route}/{stream}/{datasets}`.
    Unsplit,
    /// Each stream counts its own runs: `/{route}/{stream}/run_{id}/{datasets}`.
    PerStream,
    /// The streams of a device share a counter: `/{route}/run_{id}/{stream}/{datasets}`.
    PerDevice,
    /// All streams share one counter: `/run_{id}/{route}/{stream}/{datasets}`.
    Global,
}

impl Default for RunSplitLevel {
    fn default() -> (r: RunSplitLevel)
        ensures
            r == RunSplitLevel::Unsplit,
    {
        RunSplitLevel::Unsplit
    }
}

/// The split level that a command-line choice stands for.
pub open spec fn level_of(level: SplitLevel) -> RunSplitLevel {
    match level {
        SplitLevel::Unsplit => RunSplitLevel::Unsplit,
        SplitLevel::Stream => RunSplitLevel::PerStream,
        SplitLevel::Device => RunSplitLevel::PerDevice,
        SplitLevel::Global => RunSplitLevel::Global,
    }
}

impl From<SplitLevel> for RunSplitLevel {
    fn from(level: SplitLevel) -> (r: RunSplitLevel) {
        match level {
            SplitLevel::Unsplit => RunSplitLevel::Unsplit,
            SplitLevel::Stream => RunSplitLevel::PerStream,
            SplitLevel::Device => RunSplitLevel::PerDevice,
            SplitLevel::Global => RunSplitLevel::Global,
        }
    }
}

impl vstd::std_specs::convert::FromSpecImpl<SplitLevel> for RunSplitLevel {
    open spec fn obeys_from_spec() -> bool {
        true
    }

    open spec fn from_spec(level: SplitLevel) -> RunSplitLevel {
        level_of(level)
    }
}

/// The values of one column, gathered over the samples of a batch.
#[derive(Debug)]
pub enum ColumnBatch {
    Float(Vec<FloatValue>),
    Int(Vec<i64>),
    UInt(Vec<u64>),
}

/// What a `ColumnBatch` holds.
pub enum ColumnBatchView {
    Float(Seq<FloatValue>),
    Int(Seq<i64>),
    UInt(Seq<u64>),
}

impl View for ColumnBatch {
    type V = ColumnBatchView;

    open spec fn view(&self) -> ColumnBatchView {
        match self {
            ColumnBatch::Float(v) => ColumnBatchView::Float(v@),
            ColumnBatch::Int(v) => ColumnBatchView::Int(v@),
            ColumnBatch::UInt(v) => ColumnBatchView::UInt(v@),
        }
    }
}

/// The empty buffer for values of the given kind.
pub open spec fn empty_batch(kind: BufferType) -> ColumnBatchView {
    match kind {
        BufferType::Float => ColumnBatchView::Float(Seq::empty()),
        BufferType::Int => ColumnBatchView::Int(Seq::empty()),
        BufferType::UInt => ColumnBatchView::UInt(Seq::empty()),
    }
}

/// A buffer after one more value was offered to it. A float buffer takes
/// floats and integers, an integer buffer integers, an unsigned buffer
/// unsigned values; a value of another kind is left out.
pub open spec fn batch_append(data: ColumnBatchView, value: ColumnData) -> ColumnBatchView {
    match (data, value) {
        (ColumnBatchView::Float(v), ColumnData::Float(x)) => ColumnBatchView::Float(v.push(x)),
        (ColumnBatchView::Float(v), ColumnData::Int(x)) => ColumnBatchView::Float(
            v.push(FloatValue::Whole(x)),
        ),
        (ColumnBatchView::Int(v), ColumnData::Int(x)) => ColumnBatchView::Int(v.push(x)),
        (ColumnBatchView::UInt(v), ColumnData::UInt(x)) => ColumnBatchView::UInt(v.push(x)),
        _ => data,
    }
}

impl ColumnBatch {
    /// The empty buffer for values of the given kind.
    pub fn new(kind: BufferType) -> (r: ColumnBatch)
        ensures
            r@ == empty_batch(kind),
    {
        match kind {
            BufferType::Float => ColumnBatch::Float(Vec::new()),
            BufferType::Int => ColumnBatch::Int(Vec::new()),
            BufferType::UInt => ColumnBatch::UInt(Vec::new()),
        }
    }

    /// Offers one more value to the buffer.
    pub fn append(&mut self, value: ColumnData)
        ensures
            final(self)@ == batch_append(old(self)@, value),
    {
        match self {
            ColumnBatch::Float(v) => match value {
                ColumnData::Float(x) => v.push(x),
                ColumnData::Int(x) => v.push(FloatValue::Whole(x)),
                _ => {},
            },
            ColumnBatch::Int(v) => match value {
                ColumnData::Int(x) => v.push(x),
                _ => {},
            },
            ColumnBatch::UInt(v) => match value {
                ColumnData::UInt(x) => v.push(x),
                _ => {},
            },
        }
    }

    /// Number of values gathered.
    pub fn len(&self) -> (n: usize)
        ensures
            n == match self@ {
                ColumnBatchView::Float(v) => v.len(),
                ColumnBatchView::Int(v) => v.len(),
                ColumnBatchView::UInt(v) => v.len(),
            },
    {
        match self {
            ColumnBatch::Float(v) => v.len(),
            ColumnBatch::Int(v) => v.len(),
            ColumnBatch::UInt(v) => v.len(),
        }
    }
}

/// The values of one column of a batch, with the column's description.
#[derive(Debug)]
pub struct ColumnSeries {
    /// The column's position within a sample.
    pub id: u8,
    pub meta: ColumnMetadata,
    pub data: ColumnBatch,
}

/// What a `ColumnSeries` holds.
pub struct ColumnSeriesView {
    pub id: u8,
    pub meta: ColumnMetadataView,
    pub data: ColumnBatchView,
}

impl View for ColumnSeries {
    type V = ColumnSeriesView;

    open spec fn view(&self) -> ColumnSeriesView {
        ColumnSeriesView { id: self.id, meta: self.meta@, data: self.data@ }
    }
}

/// What a vector of column series holds.
pub open spec fn series_view(series: Seq<ColumnSeries>) -> Seq<ColumnSeriesView> {
    series.map_values(|s: ColumnSeries| s@)
}

/// Tells whether a series belongs to column `id`.
pub open spec fn has_id(id: u8) -> spec_fn(ColumnSeriesView) -> bool {
    |s: ColumnSeriesView| s.id == id
}

/// The series of a batch after one column of a sample was added. The value
/// goes to the series of the column's index. Where the batch has none yet, one
/// is begun with the description that the sample carries, and with a buffer of
/// the kind that the column's type widens to.
pub open spec fn push_column(series: Seq<ColumnSeriesView>, column: ColumnView) -> Seq<
    ColumnSeriesView,
> {
    let k = first_where(series, has_id(column.desc.index));
    let known = if k < series.len() {
        series
    } else {
        series.push(
            ColumnSeriesView {
                id: column.desc.index,
                meta: column.desc,
                data: empty_batch(column.desc.data_type.spec_buffer_type()),
            },
        )
    };
    known.update(
        k,
        ColumnSeriesView {
            id: known[k].id,
            meta: known[k].meta,
            data: batch_append(known[k].data, column.value),
        },
    )
}

/// The series of a batch after the columns of a sample were added, first to
/// last.
pub open spec fn push_columns(series: Seq<ColumnSeriesView>, columns: Seq<ColumnView>) -> Seq<
    ColumnSeriesView,
>
    decreases columns.len(),
{
    if columns.len() == 0 {
        series
    } else {
        push_column(push_columns(series, columns.drop_last()), columns.last())
    }
}

/// The samples of one stream that wait to be written.
#[derive(Debug)]
pub struct PendingBatch {
    sample_numbers: Vec<u32>,
    timestamps: Vec<TimePoint>,
    columns: Vec<ColumnSeries>,
    stream_metadata: StreamMetadata,
    segment_metadata: SegmentMetadata,
    session_id: u32,
    is_first_chunk: bool,
}

/// What a `PendingBatch` holds.
pub struct PendingBatchView {
    pub sample_numbers: Seq<u32>,
    pub timestamps: Seq<TimePoint>,
    pub columns: Seq<ColumnSeriesView>,
    pub stream_metadata: StreamMetadataView,
    pub segment_metadata: SegmentMetadataView,
    pub session_id: u32,
    /// Whether nothing of the current run of the stream was written yet.
    pub is_first_chunk: bool,
}

impl View for PendingBatch {
    type V = PendingBatchView;

    closed spec fn view(&self) -> PendingBatchView {
        PendingBatchView {
            sample_numbers: self.sample_numbers@,
            timestamps: self.timestamps@,
            columns: series_view(self.columns@),
            stream_metadata: self.stream_metadata@,
            segment_metadata: self.segment_metadata@,
            session_id: self.session_id,
            is_first_chunk: self.is_first_chunk,
        }
    }
}

/// The empty batch for the stream that `sample` belongs to.
pub open spec fn batch_new(sample: SampleView) -> PendingBatchView {
    PendingBatchView {
        sample_numbers: Seq::empty(),
        timestamps: Seq::empty(),
        columns: Seq::empty(),
        stream_metadata: sample.stream,
        segment_metadata: sample.segment,
        session_id: sample.device.session_id,
        is_first_chunk: true,
    }
}

/// Whether the next sample that a batch takes in begins a run: nothing of the
/// run was written, and nothing waits.
pub open spec fn begins_run(batch: PendingBatchView) -> bool {
    batch.is_first_chunk && batch.timestamps.len() == 0
}

/// A batch after `sample` was added: its number, the time at which it ends
/// and its columns. The batch takes over the sample's segment, and the session
/// of the sample that begins a run is the session of the run.
pub open spec fn batch_push(batch: PendingBatchView, sample: SampleView) -> PendingBatchView {
    PendingBatchView {
        sample_numbers: batch.sample_numbers.push(sample.n),
        timestamps: batch.timestamps.push(sample_end_time(sample.segment, sample.n)),
        columns: push_columns(batch.columns, sample.columns),
        stream_metadata: batch.stream_metadata,
        segment_metadata: sample.segment,
        session_id: if begins_run(batch) {
            sample.device.session_id
        } else {
            batch.session_id
        },
        is_first_chunk: batch.is_first_chunk,
    }
}

/// What is left of a batch once its samples were taken out for writing.
pub open spec fn batch_drained(batch: PendingBatchView) -> PendingBatchView {
    PendingBatchView {
        sample_numbers: Seq::empty(),
        timestamps: Seq::empty(),
        columns: Seq::empty(),
        stream_metadata: batch.stream_metadata,
        segment_metadata: batch.segment_metadata,
        session_id: batch.session_id,
        is_first_chunk: false,
    }
}

impl PendingBatch {
    /// The empty batch for the stream that `sample` belongs to.
    pub fn new(sample: &Sample) -> (r: PendingBatch)
        ensures
            r@ == batch_new(sample@),
    {
        let r = PendingBatch {
            sample_numbers: Vec::new(),
            timestamps: Vec::new(),
            columns: Vec::new(),
            stream_metadata: sample.stream.clone(),
            segment_metadata: sample.segment.clone(),
            session_id: sample.device.session_id,
            is_first_chunk: true,
        };
        proof {
            assert(series_view(r.columns@) =~= Seq::empty());
        }
        r
    }

    /// Number of samples that wait.
    pub fn len(&self) -> (n: usize)
        ensures
            n == self@.timestamps.len(),
    {
        self.timestamps.len()
    }

    /// Whether no sample waits.
    pub fn is_empty(&self) -> (r: bool)
        ensures
            r == (self@.timestamps.len() == 0),
    {
        self.timestamps.len() == 0
    }

    /// Adds a sample to the batch.
    pub fn push(&mut self, sample: &Sample)
        ensures
            final(self)@ == batch_push(old(self)@, sample@),
    {
        if self.is_first_chunk && self.timestamps.len() == 0 {
            self.session_id = sample.device.session_id;
        }
        self.sample_numbers.push(sample.n);
        self.timestamps.push(sample.timestamp_end());
        self.segment_metadata = sample.segment.clone();
        let ghost start = series_view(self.columns@);
        let ghost wanted = sample@.columns;
        let mut i: usize = 0;
        proof {
            assert(wanted.take(0) =~= Seq::<ColumnView>::empty());
        }
        while i < sample.columns.len()
            invariant
                i <= sample.columns.len(),
                wanted == sample@.columns,
                wanted.len() == sample.columns.len(),
                series_view(self.columns@) == push_columns(start, wanted.take(i as int)),
                self.sample_numbers@ == old(self).sample_numbers@.push(sample.n),
                self.timestamps@ == old(self).timestamps@.push(
                    sample_end_time(sample@.segment, sample.n),
                ),
                self.segment_metadata@ == sample@.segment,
                self.stream_metadata@ == old(self).stream_metadata@,
                self.session_id == batch_push(old(self)@, sample@).session_id,
                self.is_first_chunk == old(self).is_first_chunk,
            decreases sample.columns.len() - i,
        {
            let column = &sample.columns[i];
            let id = column.desc.index;
            let ghost before = series_view(self.columns@);
            let mut k: usize = 0;
            while k < self.columns.len() && self.columns[k].id != id
                invariant
                    k <= self.columns.len(),
                    before == series_view(self.columns@),
                    forall|j: int| 0 <= j < k ==> !has_id(id)(#[trigger] before[j]),
                decreases self.columns.len() - k,
            {
                k += 1;
            }
            proof {
                lemma_first_where(before, has_id(id), k as int);
            }
            if k == self.columns.len() {
                let series = ColumnSeries {
                    id,
                    meta: column.desc.clone(),
                    data: ColumnBatch::new(column.desc.data_type.buffer_type()),
                };
                self.columns.push(series);
                proof {
                    assert(series_view(self.columns@) =~= before.push(series@));
                }
            }
            let ghost known = series_view(self.columns@);
            self.columns[k].data.append(column.value);
            proof {
                assert(wanted[i as int] == column@);
                assert(wanted.take(i + 1).drop_last() =~= wanted.take(i as int));
                assert(wanted.take(i + 1).last() == column@);
                assert(series_view(self.columns@) =~= known.update(
                    k as int,
                    ColumnSeriesView {
                        id: known[k as int].id,
                        meta: known[k as int].meta,
                        data: batch_append(known[k as int].data, column.value),
                    },
                ));
            }
            i += 1;
        }
        proof {
            assert(wanted.take(sample.columns.len() as int) =~= wanted);
        }
    }

    /// Takes the waiting samples out for writing. What stays behind is empty
    /// and no longer the first chunk of its run.
    pub fn drain(&mut self) -> (r: PendingBatch)
        ensures
            r@ == old(self)@,
            final(self)@ == batch_drained(old(self)@),
    {
        let mut sample_numbers: Vec<u32> = Vec::new();
        let mut timestamps: Vec<TimePoint> = Vec::new();
        let mut columns: Vec<ColumnSeries> = Vec::new();
        core::mem::swap(&mut self.sample_numbers, &mut sample_numbers);
        core::mem::swap(&mut self.timestamps, &mut timestamps);
        core::mem::swap(&mut self.columns, &mut columns);
        let batch = PendingBatch {
            sample_numbers,
            timestamps,
            columns,
            stream_metadata: self.stream_metadata.clone(),
            segment_metadata: self.segment_metadata.clone(),
            session_id: self.session_id,
            is_first_chunk: self.is_first_chunk,
        };
        self.is_first_chunk = false;
        proof {
            assert(series_view(self.columns@) =~= Seq::empty());
        }
        batch
    }
}

/// Tells whether an entry of a keyed list belongs to `key`.
pub open spec fn keyed<K, V>(key: K) -> spec_fn((K, V)) -> bool {
    |e: (K, V)| e.0 == key
}

/// The run that a list of counters assigns to `key`: the count of its first
/// entry for the key, and zero where it has none.
pub open spec fn run_of<K>(runs: Seq<(K, RunId)>, key: K) -> RunId {
    let k = first_where(runs, keyed(key));
    if k < runs.len() {
        runs[k].1
    } else {
        0
    }
}

/// The run after `run`. The count stops at the largest number that fits.
pub open spec fn next_run(run: RunId) -> RunId {
    if run < u64::MAX {
        (run + 1) as u64
    } else {
        run
    }
}

/// A list of counters after the run of `key` was counted up; a key that had
/// no entry gets one, with the count one.
pub open spec fn run_bumped<K>(runs: Seq<(K, RunId)>, key: K) -> Seq<(K, RunId)> {
    let k = first_where(runs, keyed(key));
    if k < runs.len() {
        runs.update(k, (key, next_run(runs[k].1)))
    } else {
        runs.push((key, 1))
    }
}

/// The run counter of one stream.
#[derive(Debug)]
pub struct StreamRun {
    pub key: StreamKey,
    pub run: RunId,
}

/// The run counter of one device.
#[derive(Debug)]
pub struct DeviceRun {
    pub route: DeviceRoute,
    pub run: RunId,
}

/// What a vector of stream counters holds.
pub open spec fn stream_runs_view(runs: Seq<StreamRun>) -> Seq<((Seq<u8>, u8), RunId)> {
    runs.map_values(|r: StreamRun| (r.key@, r.run))
}

/// What a vector of device counters holds.
pub open spec fn device_runs_view(runs: Seq<DeviceRun>) -> Seq<(Seq<u8>, RunId)> {
    runs.map_values(|r: DeviceRun| (r.route@, r.run))
}

/// The run counters of an export, and the level at which runs are told apart.
#[derive(Debug)]
pub struct RunCounters {
    level: RunSplitLevel,
    stream_runs: Vec<StreamRun>,
    device_runs: Vec<DeviceRun>,
    global_run: RunId,
}

/// What a `RunCounters` holds.
pub struct RunCountersView {
    pub level: RunSplitLevel,
    pub stream_runs: Seq<((Seq<u8>, u8), RunId)>,
    pub device_runs: Seq<(Seq<u8>, RunId)>,
    pub global_run: RunId,
}

impl View for RunCounters {
    type V = RunCountersView;

    closed spec fn view(&self) -> RunCountersView {
        RunCountersView {
            level: self.level,
            stream_runs: stream_runs_view(self.stream_runs@),
            device_runs: device_runs_view(self.device_runs@),
            global_run: self.global_run,
        }
    }
}

impl RunCountersView {
    /// No run counted yet.
    pub open spec fn fresh(level: RunSplitLevel) -> RunCountersView {
        RunCountersView {
            level,
            stream_runs: Seq::empty(),
            device_runs: Seq::empty(),
            global_run: 0,
        }
    }

    /// The run that a stream is in, where runs are told apart at all.
    pub open spec fn run_id(self, key: (Seq<u8>, u8)) -> Option<RunId> {
        match self.level {
            RunSplitLevel::Unsplit => None,
            RunSplitLevel::PerStream => Some(run_of(self.stream_runs, key)),
            RunSplitLevel::PerDevice => Some(run_of(self.device_runs, key.0)),
            RunSplitLevel::Global => Some(self.global_run),
        }
    }

    /// The counters after a discontinuity in stream `key`: the counter that
    /// the level assigns to the stream is counted up.
    pub open spec fn advanced(self, key: (Seq<u8>, u8)) -> RunCountersView {
        match self.level {
            RunSplitLevel::Unsplit => self,
            RunSplitLevel::PerStream => RunCountersView {
                stream_runs: run_bumped(self.stream_runs, key),
                ..self
            },
            RunSplitLevel::PerDevice => RunCountersView {
                device_runs: run_bumped(self.device_runs, key.0),
                ..self
            },
            RunSplitLevel::Global => RunCountersView { global_run: next_run(self.global_run), ..self },
        }
    }
}

/// The name of the group of run `run`, after a slash: `/run_` and the number
/// in at least six digits.
pub open spec fn run_segment(run: RunId) -> Seq<char> {
    seq!['/', 'r', 'u', 'n', '_'] + zero_padded(run as nat, 6)
}

/// The path of a stream in the file, whatever the run: the route and the
/// stream's name, each after a slash.
pub open spec fn stream_path(route: Seq<u8>, stream: Seq<char>) -> Seq<char> {
    route_text(route).push('/') + stream
}

/// The path of the group that the datasets of a stream are written to.
pub open spec fn group_path(runs: RunCountersView, key: (Seq<u8>, u8), stream: Seq<char>) -> Seq<
    char,
> {
    match runs.level {
        RunSplitLevel::Unsplit => stream_path(key.0, stream),
        RunSplitLevel::PerStream => stream_path(key.0, stream) + run_segment(
            run_of(runs.stream_runs, key),
        ),
        RunSplitLevel::PerDevice => route_text(key.0) + run_segment(run_of(runs.device_runs, key.0))
            + seq!['/'] + stream,
        RunSplitLevel::Global => run_segment(runs.global_run) + stream_path(key.0, stream),
    }
}

impl RunCounters {
    /// Counters that have counted nothing yet.
    pub fn new(level: RunSplitLevel) -> (r: RunCounters)
        ensures
            r@ == RunCountersView::fresh(level),
    {
        let r = RunCounters {
            level,
            stream_runs: Vec::new(),
            device_runs: Vec::new(),
            global_run: 0,
        };
        proof {
            assert(stream_runs_view(r.stream_runs@) =~= Seq::empty());
            assert(device_runs_view(r.device_runs@) =~= Seq::empty());
        }
        r
    }

    /// The level at which runs are told apart.
    pub fn level(&self) -> (l: RunSplitLevel)
        ensures
            l == self@.level,
    {
        self.level
    }

    /// Position of the counter of stream `key`, or the number of counters.
    fn find_stream(&self, key: &StreamKey) -> (k: usize)
        ensures
            k == first_where(self@.stream_runs, keyed(key@)),
            k <= self.stream_runs.len(),
    {
        let ghost runs = self@.stream_runs;
        let mut k: usize = 0;
        while k < self.stream_runs.len() && !self.stream_runs[k].key.equals(key)
            invariant
                k <= self.stream_runs.len(),
                runs == stream_runs_view(self.stream_runs@),
                forall|j: int| 0 <= j < k ==> !keyed::<(Seq<u8>, u8), RunId>(key@)(#[trigger] runs[j]),
            decreases self.stream_runs.len() - k,
        {
            k += 1;
        }
        proof {
            lemma_first_where(runs, keyed(key@), k as int);
        }
        k
    }

    /// Position of the counter of the device at `route`, or the number of counters.
    fn find_device(&self, route: &DeviceRoute) -> (k: usize)
        ensures
            k == first_where(self@.device_runs, keyed(route@)),
            k <= self.device_runs.len(),
    {
        let ghost runs = self@.device_runs;
        let mut k: usize = 0;
        while k < self.device_runs.len() && !self.device_runs[k].route.equals(route)
            invariant
                k <= self.device_runs.len(),
                runs == device_runs_view(self.device_runs@),
                forall|j: int| 0 <= j < k ==> !keyed::<Seq<u8>, RunId>(route@)(#[trigger] runs[j]),
            decreases self.device_runs.len() - k,
        {
            k += 1;
        }
        proof {
            lemma_first_where(runs, keyed(route@), k as int);
        }
        k
    }

    /// The run that a stream is in, where runs are told apart at all.
    pub fn run_id(&self, key: &StreamKey) -> (r: Option<RunId>)
        ensures
            r == self@.run_id(key@),
    {
        match self.level {
            RunSplitLevel::Unsplit => None,
            RunSplitLevel::PerStream => {
                let k = self.find_stream(key);
                if k < self.stream_runs.len() {
                    Some(self.stream_runs[k].run)
                } else {
                    Some(0)
                }
            },
            RunSplitLevel::PerDevice => {
                let k = self.find_device(&key.route);
                if k < self.device_runs.len() {
                    Some(self.device_runs[k].run)
                } else {
                    Some(0)
                }
            },
            RunSplitLevel::Global => Some(self.global_run),
        }
    }

    /// Counts up the counter that the level assigns to stream `key`.
    pub fn advance(&mut self, key: &StreamKey)
        ensures
            final(self)@ == old(self)@.advanced(key@),
    {
        match self.level {
            RunSplitLevel::Unsplit => {},
            RunSplitLevel::PerStream => {
                let ghost before = stream_runs_view(self.stream_runs@);
                let k = self.find_stream(key);
                if k < self.stream_runs.len() {
                    let run = self.stream_runs[k].run;
                    let next = if run < u64::MAX {
                        run + 1
                    } else {
                        run
                    };
                    self.stream_runs[k].run = next;
                    proof {
                        assert(before[k as int].0 == key@) by {
                            lemma_first_where_bounds(before, keyed(key@));
                        }
                        assert(stream_runs_view(self.stream_runs@) =~= before.update(
                            k as int,
                            (key@, next),
                        ));
                    }
                } else {
                    self.stream_runs.push(StreamRun { key: key.clone(), run: 1 });
                    proof {
                        assert(stream_runs_view(self.stream_runs@) =~= before.push((key@, 1)));
                    }
                }
            },
            RunSplitLevel::PerDevice => {
                let ghost before = device_runs_view(self.device_runs@);
                let k = self.find_device(&key.route);
                if k < self.device_runs.len() {
                    let run = self.device_runs[k].run;
                    let next = if run < u64::MAX {
                        run + 1
                    } else {
                        run
                    };
                    self.device_runs[k].run = next;
                    proof {
                        assert(before[k as int].0 == key@.0) by {
                            lemma_first_where_bounds(before, keyed(key@.0));
                        }
                        assert(device_runs_view(self.device_runs@) =~= before.update(
                            k as int,
                            (key@.0, next),
                        ));
                    }
                } else {
                    self.device_runs.push(DeviceRun { route: key.route.clone(), run: 1 });
                    proof {
                        assert(device_runs_view(self.device_runs@) =~= before.push((key@.0, 1)));
                    }
                }
            },
            RunSplitLevel::Global => {
                if self.global_run < u64::MAX {
                    self.global_run += 1;
                }
            },
        }
    }

    /// The path of the group that the datasets of a stream are written to.
    pub fn group_path(&self, stream_name: &str, key: &StreamKey) -> (r: String)
        ensures
            r@ == group_path(self@, key@, stream_name@),
    {
        let mut out: Vec<char> = Vec::new();
        match self.level {
            RunSplitLevel::Unsplit => {
                key.route.push_text(&mut out);
                out.push('/');
                push_str(&mut out, stream_name);
            },
            RunSplitLevel::PerStream => {
                key.route.push_text(&mut out);
                out.push('/');
                push_str(&mut out, stream_name);
                let run = match self.run_id(key) {
                    Some(run) => run,
                    None => 0,
                };
                push_run_segment(&mut out, run);
            },
            RunSplitLevel::PerDevice => {
                key.route.push_text(&mut out);
                let run = match self.run_id(key) {
                    Some(run) => run,
                    None => 0,
                };
                push_run_segment(&mut out, run);
                out.push('/');
                push_str(&mut out, stream_name);
            },
            RunSplitLevel::Global => {
                push_run_segment(&mut out, self.global_run);
                key.route.push_text(&mut out);
                out.push('/');
                push_str(&mut out, stream_name);
            },
        }
        proof {
            assert(out@ =~= group_path(self@, key@, stream_name@));
        }
        string_of(&out)
    }
}

/// Appends the name of the group of run `run`, after a slash.
fn push_run_segment(out: &mut Vec<char>, run: RunId)
    ensures
        final(out)@ == old(out)@ + run_segment(run),
{
    push_str(out, "/run_");
    push_zero_padded(out, run, 6);
    proof {
        reveal_strlit("/run_");
        assert("/run_"@ =~= seq!['/', 'r', 'u', 'n', '_']);
        assert(out@ =~= old(out)@ + run_segment(run));
    }
}

/// What an export has written so far.
#[derive(Debug)]
pub struct ExportStats {
    /// Samples handed out for writing.
    pub total_samples: u64,
    /// The earliest of the times handed out for writing, if there is any.
    pub start_time: Option<TimePoint>,
    /// The latest of the times handed out for writing, if there is any.
    pub end_time: Option<TimePoint>,
    /// The paths of the streams of which something was written, each once, in
    /// the order in which they were first written.
    pub streams_written: Vec<String>,
}

/// What an `ExportStats` holds.
pub struct ExportStatsView {
    pub total_samples: u64,
    pub start_time: Option<TimePoint>,
    pub end_time: Option<TimePoint>,
    pub streams_written: Seq<Seq<char>>,
}

impl View for ExportStats {
    type V = ExportStatsView;

    open spec fn view(&self) -> ExportStatsView {
        ExportStatsView {
            total_samples: self.total_samples,
            start_time: self.start_time,
            end_time: self.end_time,
            streams_written: texts_view(self.streams_written@),
        }
    }
}

/// The attributes of the group of a run, written with the first chunk of the
/// run.
#[derive(Debug)]
pub struct GroupAttributes {
    pub sampling_rate: u32,
    pub decimation: u32,
    pub start_time: u32,
    /// The bits of a single-precision number.
    pub filter_cutoff: u32,
    pub session_id: u32,
    /// Present where runs are told apart.
    pub run_id: Option<RunId>,
    pub time_ref_epoch: u8,
    pub filter_type: u8,
    /// Present where the segment names a time reference.
    pub time_ref_serial: Option<String>,
}

/// What a `GroupAttributes` holds.
pub struct GroupAttributesView {
    pub sampling_rate: u32,
    pub decimation: u32,
    pub start_time: u32,
    pub filter_cutoff: u32,
    pub session_id: u32,
    pub run_id: Option<RunId>,
    pub time_ref_epoch: u8,
    pub filter_type: u8,
    pub time_ref_serial: Option<Seq<char>>,
}

impl View for GroupAttributes {
    type V = GroupAttributesView;

    open spec fn view(&self) -> GroupAttributesView {
        GroupAttributesView {
            sampling_rate: self.sampling_rate,
            decimation: self.decimation,
            start_time: self.start_time,
            filter_cutoff: self.filter_cutoff,
            session_id: self.session_id,
            run_id: self.run_id,
            time_ref_epoch: self.time_ref_epoch,
            filter_type: self.filter_type,
            time_ref_serial: option_text(self.time_ref_serial),
        }
    }
}

/// The dataset of one column in a write: its name, its attributes and the
/// values to append.
#[derive(Debug)]
pub struct ColumnWrite {
    pub name: String,
    pub units: Option<String>,
    pub description: Option<String>,
    pub data: ColumnBatch,
}

/// What a `ColumnWrite` holds.
pub struct ColumnWriteView {
    pub name: Seq<char>,
    pub units: Option<Seq<char>>,
    pub description: Option<Seq<char>>,
    pub data: ColumnBatchView,
}

impl View for ColumnWrite {
    type V = ColumnWriteView;

    open spec fn view(&self) -> ColumnWriteView {
        ColumnWriteView {
            name: self.name@,
            units: option_text(self.units),
            description: option_text(self.description),
            data: self.data@,
        }
    }
}

/// What a vector of column writes holds.
pub open spec fn writes_view(writes: Seq<ColumnWrite>) -> Seq<ColumnWriteView> {
    writes.map_values(|w: ColumnWrite| w@)
}

/// One batch of a stream to append to the file. The sample numbers and the
/// times go to the datasets `sample_number` and `time` of the group, the
/// columns to datasets of their own.
#[derive(Debug)]
pub struct BatchWrite {
    /// The stream that the batch belongs to.
    pub key: StreamKey,
    pub group_path: String,
    /// Set on the first chunk of a run.
    pub attributes: Option<GroupAttributes>,
    pub sample_numbers: Vec<u32>,
    pub timestamps: Vec<TimePoint>,
    pub columns: Vec<ColumnWrite>,
}

/// What a `BatchWrite` holds.
pub struct BatchWriteView {
    pub key: (Seq<u8>, u8),
    pub group_path: Seq<char>,
    pub attributes: Option<GroupAttributesView>,
    pub sample_numbers: Seq<u32>,
    pub timestamps: Seq<TimePoint>,
    pub columns: Seq<ColumnWriteView>,
}

impl View for BatchWrite {
    type V = BatchWriteView;

    open spec fn view(&self) -> BatchWriteView {
        BatchWriteView {
            key: self.key@,
            group_path: self.group_path@,
            attributes: match self.attributes {
                Some(a) => Some(a@),
                None => None,
            },
            sample_numbers: self.sample_numbers@,
            timestamps: self.timestamps@,
            columns: writes_view(self.columns@),
        }
    }
}

/// What the caller of the appender is to do next.
#[derive(Debug)]
pub enum ExportAction {
    /// Report how the filter decided on a column path seen for the first time.
    Trace { path: String, matched: bool },
    /// Append a batch to the file.
    Write(BatchWrite),
}

/// What an `ExportAction` holds.
pub enum ExportActionView {
    Trace { path: Seq<char>, matched: bool },
    Write(BatchWriteView),
}

impl View for ExportAction {
    type V = ExportActionView;

    open spec fn view(&self) -> ExportActionView {
        match self {
            ExportAction::Trace { path, matched } => ExportActionView::Trace {
                path: path@,
                matched: *matched,
            },
            ExportAction::Write(w) => ExportActionView::Write(w@),
        }
    }
}

/// What a vector of actions holds.
pub open spec fn actions_view(actions: Seq<ExportAction>) -> Seq<ExportActionView> {
    actions.map_values(|a: ExportAction| a@)
}

/// A text, unless it is empty.
pub open spec fn text_if_any(text: Seq<char>) -> Option<Seq<char>> {
    if text.len() == 0 {
        None
    } else {
        Some(text)
    }
}

/// The dataset that the series of a column is written to: named after the
/// column, with its units and description where it has any.
pub open spec fn column_write(series: ColumnSeriesView) -> ColumnWriteView {
    ColumnWriteView {
        name: series.meta.name,
        units: text_if_any(series.meta.units),
        description: text_if_any(series.meta.description),
        data: series.data,
    }
}

/// The attributes of the group that a batch of stream `key` is written to.
pub open spec fn attributes_of(runs: RunCountersView, batch: PendingBatchView, key: (Seq<u8>, u8))
    -> GroupAttributesView {
    GroupAttributesView {
        sampling_rate: batch.segment_metadata.sampling_rate,
        decimation: batch.segment_metadata.decimation,
        start_time: batch.segment_metadata.start_time,
        filter_cutoff: batch.segment_metadata.filter_cutoff,
        session_id: batch.session_id,
        run_id: runs.run_id(key),
        time_ref_epoch: batch.segment_metadata.time_ref_epoch,
        filter_type: batch.segment_metadata.filter_type,
        time_ref_serial: text_if_any(batch.segment_metadata.time_ref_serial),
    }
}

/// A list of texts with `text` in it: added at the end unless it is there.
pub open spec fn with_text(texts: Seq<Seq<char>>, text: Seq<char>) -> Seq<Seq<char>> {
    if texts.contains(text) {
        texts
    } else {
        texts.push(text)
    }
}

/// A count of samples after `n` more; it stops at the largest number that fits.
pub open spec fn samples_added(total: u64, n: nat) -> u64 {
    if total + n <= u64::MAX {
        (total + n) as u64
    } else {
        u64::MAX
    }
}

/// The earliest of a time held, if one is held, and a run of times: a time
/// of the run takes the place of what is held where it lies before it.
pub open spec fn earliest(held: Option<TimePoint>, times: Seq<TimePoint>) -> Option<TimePoint>
    decreases times.len(),
{
    if times.len() == 0 {
        held
    } else {
        match earliest(held, times.drop_last()) {
            Some(t) => if time_before(times.last(), t) {
                Some(times.last())
            } else {
                Some(t)
            },
            None => Some(times.last()),
        }
    }
}

/// The latest of a time held, if one is held, and a run of times: a time of
/// the run takes the place of what is held where what is held lies before it.
pub open spec fn latest(held: Option<TimePoint>, times: Seq<TimePoint>) -> Option<TimePoint>
    decreases times.len(),
{
    if times.len() == 0 {
        held
    } else {
        match latest(held, times.drop_last()) {
            Some(t) => if time_before(t, times.last()) {
                Some(times.last())
            } else {
                Some(t)
            },
            None => Some(times.last()),
        }
    }
}

/// The earliest and the latest of the times held and a run of times.
fn span_with(start: Option<TimePoint>, end: Option<TimePoint>, times: &Vec<TimePoint>) -> (r: (
    Option<TimePoint>,
    Option<TimePoint>,
))
    ensures
        r.0 == earliest(start, times@),
        r.1 == latest(end, times@),
{
    let mut first = start;
    let mut last = end;
    let mut i: usize = 0;
    proof {
        assert(times@.take(0) =~= Seq::<TimePoint>::empty());
    }
    while i < times.len()
        invariant
            i <= times.len(),
            first == earliest(start, times@.take(i as int)),
            last == latest(end, times@.take(i as int)),
        decreases times.len() - i,
    {
        let t = times[i];
        proof {
            let next = times@.take(i + 1);
            assert(next.drop_last() =~= times@.take(i as int));
            assert(next.last() == t);
        }
        first = match first {
            Some(held) => if is_time_before(t, held) {
                Some(t)
            } else {
                Some(held)
            },
            None => Some(t),
        };
        last = match last {
            Some(held) => if is_time_before(held, t) {
                Some(t)
            } else {
                Some(held)
            },
            None => Some(t),
        };
        i += 1;
    }
    proof {
        assert(times@.take(times.len() as int) =~= times@);
    }
    (first, last)
}

/// How the columns of a batch fare with the filter.
pub struct Selection {
    /// The column paths reported so far.
    pub seen: Seq<Seq<char>>,
    /// The reports to make, in the order of the columns.
    pub trace: Seq<ExportActionView>,
    /// The datasets of the columns that pass, in the order of the columns.
    pub chosen: Seq<ColumnWriteView>,
}

/// Passes the columns of a batch through the filter, first to last. Without
/// a filter every column passes. With one, a column passes if the filter
/// matches its path; when debugging, the decision on a path is reported the
/// first time the path is seen.
pub open spec fn select_columns(
    filter: Option<Seq<char>>,
    debug: bool,
    seen: Seq<Seq<char>>,
    route: Seq<u8>,
    stream: Seq<char>,
    series: Seq<ColumnSeriesView>,
) -> Selection
    decreases series.len(),
{
    if series.len() == 0 {
        Selection { seen, trace: Seq::empty(), chosen: Seq::empty() }
    } else {
        let before = select_columns(filter, debug, seen, route, stream, series.drop_last());
        let column = series.last();
        match filter {
            None => Selection { chosen: before.chosen.push(column_write(column)), ..before },
            Some(pattern) => {
                let path = column_path(route, stream, column.meta.name);
                let matched = path_matches(pattern, path);
                let fresh = debug && !before.seen.contains(path);
                Selection {
                    seen: if fresh {
                        before.seen.push(path)
                    } else {
                        before.seen
                    },
                    trace: if fresh {
                        before.trace.push(ExportActionView::Trace { path, matched })
                    } else {
                        before.trace
                    },
                    chosen: if matched {
                        before.chosen.push(column_write(column))
                    } else {
                        before.chosen
                    },
                }
            },
        }
    }
}

/// The state of an export: what waits to be written, the run counters, and
/// what was written.
pub struct AppenderView {
    /// The batch of each stream seen so far, in the order in which the
    /// streams were first seen.
    pub pending: Seq<((Seq<u8>, u8), PendingBatchView)>,
    /// The pattern of the column filter, if there is one.
    pub filter: Option<Seq<char>>,
    pub compress: bool,
    pub debug: bool,
    pub batch_size: usize,
    pub split_policy: SplitPolicy,
    pub runs: RunCountersView,
    /// The column paths on which the filter's decision was reported.
    pub seen_debug: Seq<Seq<char>>,
    pub stats: ExportStatsView,
}

/// Writing a batch of stream `key`: the new state and the actions to carry
/// out. An empty batch writes nothing. Any other batch goes to the group of
/// the stream's current run with its sample numbers and times, with the
/// columns that pass the filter, which may be none, and with the group's
/// attributes if it is the first chunk of the run; the samples are counted,
/// their times widen the span of the export, and the stream is noted as
/// written.
pub open spec fn write_batch_spec(st: AppenderView, key: (Seq<u8>, u8), batch: PendingBatchView)
    -> (AppenderView, Seq<ExportActionView>) {
    if batch.timestamps.len() == 0 {
        (st, Seq::empty())
    } else {
        let stream = batch.stream_metadata.name;
        let sel = select_columns(st.filter, st.debug, st.seen_debug, key.0, stream, batch.columns);
        let write = BatchWriteView {
            key,
            group_path: group_path(st.runs, key, stream),
            attributes: if batch.is_first_chunk {
                Some(attributes_of(st.runs, batch, key))
            } else {
                None
            },
            sample_numbers: batch.sample_numbers,
            timestamps: batch.timestamps,
            columns: sel.chosen,
        };
        let stats = ExportStatsView {
            total_samples: samples_added(st.stats.total_samples, batch.timestamps.len()),
            start_time: earliest(st.stats.start_time, batch.timestamps),
            end_time: latest(st.stats.end_time, batch.timestamps),
            streams_written: with_text(st.stats.streams_written, stream_path(key.0, stream)),
        };
        (
            AppenderView { seen_debug: sel.seen, stats, ..st },
            sel.trace.push(ExportActionView::Write(write)),
        )
    }
}

/// Flushing the stream at position `i`: its waiting samples, if any, are taken
/// out and written.
pub open spec fn flush_at(st: AppenderView, i: int) -> (AppenderView, Seq<ExportActionView>) {
    let (key, batch) = st.pending[i];
    if batch.timestamps.len() == 0 {
        (st, Seq::empty())
    } else {
        write_batch_spec(
            AppenderView { pending: st.pending.update(i, (key, batch_drained(batch))), ..st },
            key,
            batch,
        )
    }
}

/// Flushing stream `key`, if it was seen.
pub open spec fn flush_stream_spec(st: AppenderView, key: (Seq<u8>, u8)) -> (
    AppenderView,
    Seq<ExportActionView>,
) {
    let i = first_where(st.pending, keyed(key));
    if i < st.pending.len() {
        flush_at(st, i)
    } else {
        (st, Seq::empty())
    }
}

/// The state in which whatever the stream at position `i` writes next is the
/// first chunk of a run.
pub open spec fn marked_first(st: AppenderView, i: int) -> AppenderView {
    let (key, batch) = st.pending[i];
    AppenderView {
        pending: st.pending.update(i, (key, PendingBatchView { is_first_chunk: true, ..batch })),
        ..st
    }
}

/// Flushing the first `n` streams in the order in which they were first seen;
/// only those of `device`, where one is given. With `mark`, each flushed
/// stream begins a run with what it writes next.
pub open spec fn flush_first(st: AppenderView, n: nat, device: Option<Seq<u8>>, mark: bool) -> (
    AppenderView,
    Seq<ExportActionView>,
)
    decreases n,
{
    if n == 0 {
        (st, Seq::empty())
    } else {
        let (st1, done) = flush_first(st, (n - 1) as nat, device, mark);
        let i = n - 1;
        if device is Some && st1.pending[i].0.0 != device->Some_0 {
            (st1, done)
        } else {
            let (st2, more) = flush_at(st1, i);
            (
                if mark {
                    marked_first(st2, i)
                } else {
                    st2
                },
                done + more,
            )
        }
    }
}

/// What a discontinuity in stream `key` does. Without run splitting the
/// stream is flushed. Per stream, it is flushed and begins a run. Per device,
/// all streams of its device are flushed and begin a run; globally, all
/// streams. The counter of the level is counted up.
pub open spec fn handle_discontinuity_spec(st: AppenderView, key: (Seq<u8>, u8)) -> (
    AppenderView,
    Seq<ExportActionView>,
) {
    let (st1, actions) = match st.runs.level {
        RunSplitLevel::Unsplit => flush_stream_spec(st, key),
        RunSplitLevel::PerStream => {
            let (flushed, actions) = flush_stream_spec(st, key);
            let i = first_where(flushed.pending, keyed(key));
            (
                if i < flushed.pending.len() {
                    marked_first(flushed, i)
                } else {
                    flushed
                },
                actions,
            )
        },
        RunSplitLevel::PerDevice => flush_first(st, st.pending.len(), Some(key.0), true),
        RunSplitLevel::Global => flush_first(st, st.pending.len(), None, true),
    };
    (AppenderView { runs: st1.runs.advanced(key), ..st1 }, actions)
}

/// Whether a sample starts a new run under the given policy.
pub open spec fn splits(policy: SplitPolicy, sample: SampleView) -> bool {
    match policy {
        SplitPolicy::Continuous => !sample.is_continuous(),
        SplitPolicy::Monotonic => !sample.is_monotonic(),
    }
}

/// An export after a sample joined the batch of its stream, which is begun if
/// the stream is new.
pub open spec fn joined(st: AppenderView, sample: SampleView, key: (Seq<u8>, u8)) -> AppenderView {
    let i = first_where(st.pending, keyed(key));
    let known = if i < st.pending.len() {
        st.pending
    } else {
        st.pending.push((key, batch_new(sample)))
    };
    AppenderView { pending: known.update(i, (key, batch_push(known[i].1, sample))), ..st }
}

/// What a sample does once the discontinuity, if it is one, was dealt with:
/// it joins the batch of its stream, which is flushed if it has reached the
/// batch size.
pub open spec fn settle(st: AppenderView, sample: SampleView, key: (Seq<u8>, u8)) -> (
    AppenderView,
    Seq<ExportActionView>,
) {
    let i = first_where(st.pending, keyed::<(Seq<u8>, u8), PendingBatchView>(key));
    let st2 = joined(st, sample, key);
    if st2.pending[i].1.timestamps.len() >= st.batch_size {
        flush_at(st2, i)
    } else {
        (st2, Seq::empty())
    }
}

/// Taking in a sample of stream `key`. A sample that starts a new run is
/// preceded by what the discontinuity does. The sample joins the batch of its
/// stream, which is begun if the stream is new; a batch that has reached the
/// batch size is flushed.
pub open spec fn write_sample_spec(st: AppenderView, sample: SampleView, key: (Seq<u8>, u8)) -> (
    AppenderView,
    Seq<ExportActionView>,
) {
    let (st1, first) = if splits(st.split_policy, sample) {
        handle_discontinuity_spec(st, key)
    } else {
        (st, Seq::empty())
    };
    let (st3, second) = settle(st1, sample, key);
    (st3, first + second)
}

/// The state of an export before the first sample.
pub open spec fn fresh_appender(
    filter: Option<Seq<char>>,
    compress: bool,
    debug: bool,
    batch_size: usize,
    split_policy: SplitPolicy,
    split_level: RunSplitLevel,
) -> AppenderView {
    AppenderView {
        pending: Seq::empty(),
        filter,
        compress,
        debug,
        batch_size,
        split_policy,
        runs: RunCountersView::fresh(split_level),
        seen_debug: Seq::empty(),
        stats: ExportStatsView {
            total_samples: 0,
            start_time: None,
            end_time: None,
            streams_written: Seq::empty(),
        },
    }
}

/// The batch of one stream.
#[derive(Debug)]
pub struct PendingEntry {
    pub key: StreamKey,
    pub batch: PendingBatch,
}

/// What a vector of pending entries holds.
pub open spec fn entries_view(entries: Seq<PendingEntry>) -> Seq<((Seq<u8>, u8), PendingBatchView)> {
    entries.map_values(|e: PendingEntry| (e.key@, e.batch@))
}

/// The pattern of an optional filter.
pub open spec fn filter_text(filter: Option<ColumnFilter>) -> Option<Seq<char>> {
    match filter {
        Some(f) => Some(f.pattern_text()),
        None => None,
    }
}

/// Whether `texts` holds `text`.
fn holds_text(texts: &Vec<String>, text: &String) -> (r: bool)
    ensures
        r == texts_view(texts@).contains(text@),
{
    let ghost all = texts_view(texts@);
    let mut i: usize = 0;
    while i < texts.len()
        invariant
            i <= texts.len(),
            all == texts_view(texts@),
            forall|j: int| 0 <= j < i ==> all[j] != text@,
        decreases texts.len() - i,
    {
        if texts[i] == *text {
            proof {
                assert(all[i as int] == text@);
            }
            return true;
        }
        i += 1;
    }
    false
}

/// A copy of a text, unless it is empty.
fn copy_if_any(text: &String) -> (r: Option<String>)
    ensures
        option_text(r) == text_if_any(text@),
{
    if text.as_str().is_empty() {
        None
    } else {
        Some(text.clone())
    }
}

/// Gathers samples per stream and decides what is written where.
pub struct Hdf5Appender {
    pending: Vec<PendingEntry>,
    filter: Option<ColumnFilter>,
    compress: bool,
    debug: bool,
    batch_size: usize,
    split_policy: SplitPolicy,
    runs: RunCounters,
    seen_debug: Vec<String>,
    stats: ExportStats,
}

impl View for Hdf5Appender {
    type V = AppenderView;

    closed spec fn view(&self) -> AppenderView {
        AppenderView {
            pending: entries_view(self.pending@),
            filter: filter_text(self.filter),
            compress: self.compress,
            debug: self.debug,
            batch_size: self.batch_size,
            split_policy: self.split_policy,
            runs: self.runs@,
            seen_debug: texts_view(self.seen_debug@),
            stats: self.stats@,
        }
    }
}

impl Hdf5Appender {
    /// An appender that splits on any discontinuity and tells no runs apart.
    pub fn new(compress: bool, debug: bool, filter: Option<ColumnFilter>, batch_size: usize) -> (r:
        Hdf5Appender)
        ensures
            r@ == fresh_appender(
                filter_text(filter),
                compress,
                debug,
                batch_size,
                SplitPolicy::Continuous,
                RunSplitLevel::Unsplit,
            ),
    {
        Hdf5Appender::with_options(
            compress,
            debug,
            filter,
            batch_size,
            SplitPolicy::Continuous,
            RunSplitLevel::Unsplit,
        )
    }

    /// An appender with the given split policy that tells no runs apart.
    pub fn with_policy(
        compress: bool,
        debug: bool,
        filter: Option<ColumnFilter>,
        batch_size: usize,
        split_policy: SplitPolicy,
    ) -> (r: Hdf5Appender)
        ensures
            r@ == fresh_appender(
                filter_text(filter),
                compress,
                debug,
                batch_size,
                split_policy,
                RunSplitLevel::Unsplit,
            ),
    {
        Hdf5Appender::with_options(
            compress,
            debug,
            filter,
            batch_size,
            split_policy,
            RunSplitLevel::Unsplit,
        )
    }

    /// An appender with the given split policy and level.
    pub fn with_options(
        compress: bool,
        debug: bool,
        filter: Option<ColumnFilter>,
        batch_size: usize,
        split_policy: SplitPolicy,
        split_level: RunSplitLevel,
    ) -> (r: Hdf5Appender)
        ensures
            r@ == fresh_appender(
                filter_text(filter),
                compress,
                debug,
                batch_size,
                split_policy,
                split_level,
            ),
    {
        let r = Hdf5Appender {
            pending: Vec::new(),
            filter,
            compress,
            debug,
            batch_size,
            split_policy,
            runs: RunCounters::new(split_level),
            seen_debug: Vec::new(),
            stats: ExportStats {
                total_samples: 0,
                start_time: None,
                end_time: None,
                streams_written: Vec::new(),
            },
        };
        proof {
            assert(entries_view(r.pending@) =~= Seq::empty());
            assert(texts_view(r.seen_debug@) =~= Seq::empty());
            assert(texts_view(r.stats.streams_written@) =~= Seq::empty());
        }
        r
    }

    /// Whether datasets are to be compressed.
    pub fn compress(&self) -> (r: bool)
        ensures
            r == self@.compress,
    {
        self.compress
    }

    /// Whether the filter's decisions are reported.
    pub fn debug(&self) -> (r: bool)
        ensures
            r == self@.debug,
    {
        self.debug
    }

    /// Position of the batch of stream `key`, or the number of batches.
    fn find_pending(&self, key: &StreamKey) -> (k: usize)
        ensures
            k == first_where(self@.pending, keyed(key@)),
            k <= self.pending.len(),
    {
        let ghost entries = self@.pending;
        let mut k: usize = 0;
        while k < self.pending.len() && !self.pending[k].key.equals(key)
            invariant
                k <= self.pending.len(),
                entries == entries_view(self.pending@),
                forall|j: int|
                    0 <= j < k ==> !keyed::<(Seq<u8>, u8), PendingBatchView>(key@)(
                        #[trigger] entries[j],
                    ),
            decreases self.pending.len() - k,
        {
            k += 1;
        }
        proof {
            lemma_first_where(entries, keyed(key@), k as int);
        }
        k
    }

    /// The run that a stream is in, where runs are told apart at all.
    pub fn get_run_id(&self, key: &StreamKey) -> (r: Option<RunId>)
        ensures
            r == self@.runs.run_id(key@),
    {
        self.runs.run_id(key)
    }

    /// The path of the group that the datasets of a stream are written to.
    pub fn make_group_path(&self, stream_name: &str, key: &StreamKey) -> (r: String)
        ensures
            r@ == group_path(self@.runs, key@, stream_name@),
    {
        self.runs.group_path(stream_name, key)
    }

    /// The attributes of the group that a batch of stream `key` is written to.
    fn metadata_attributes(&self, batch_segment: &SegmentMetadata, session_id: u32, key: &StreamKey)
        -> (r: GroupAttributes)
        ensures
            r@ == (GroupAttributesView {
                sampling_rate: batch_segment@.sampling_rate,
                decimation: batch_segment@.decimation,
                start_time: batch_segment@.start_time,
                filter_cutoff: batch_segment@.filter_cutoff,
                session_id,
                run_id: self@.runs.run_id(key@),
                time_ref_epoch: batch_segment@.time_ref_epoch,
                filter_type: batch_segment@.filter_type,
                time_ref_serial: text_if_any(batch_segment@.time_ref_serial),
            }),
    {
        GroupAttributes {
            sampling_rate: batch_segment.sampling_rate,
            decimation: batch_segment.decimation,
            start_time: batch_segment.start_time,
            filter_cutoff: batch_segment.filter_cutoff,
            session_id,
            run_id: self.runs.run_id(key),
            time_ref_epoch: batch_segment.time_ref_epoch,
            filter_type: batch_segment.filter_type,
            time_ref_serial: copy_if_any(&batch_segment.time_ref_serial),
        }
    }

    /// Writes a batch of stream `key`: appends to `actions` what is to be done.
    fn write_batch(&mut self, key: &StreamKey, batch: PendingBatch, actions: &mut Vec<ExportAction>)
        ensures
            final(self)@ == write_batch_spec(old(self)@, key@, batch@).0,
            actions_view(final(actions)@) == actions_view(old(actions)@) + write_batch_spec(
                old(self)@,
                key@,
                batch@,
            ).1,
    {
        let ghost st = self@;
        let ghost bv = batch@;
        let ghost acts0 = actions_view(actions@);
        if batch.is_empty() {
            proof {
                assert(acts0 + Seq::<ExportActionView>::empty() =~= acts0);
            }
            return ;
        }
        let PendingBatch {
            sample_numbers,
            timestamps,
            columns,
            stream_metadata,
            segment_metadata,
            session_id,
            is_first_chunk,
        } = batch;
        let ghost all = series_view(columns@);
        let ghost stream = stream_metadata@.name;
        let mut chosen: Vec<ColumnWrite> = Vec::new();
        let mut columns = columns;
        let n_columns = columns.len();
        let mut i: usize = 0;
        proof {
            assert(all.take(0) =~= Seq::<ColumnSeriesView>::empty());
            assert(writes_view(chosen@) =~= Seq::empty());
            assert(acts0 + Seq::<ExportActionView>::empty() =~= acts0);
        }
        while i < n_columns
            invariant
                i <= n_columns,
                n_columns == columns.len(),
                all.len() == n_columns,
                stream == stream_metadata@.name,
                forall|j: int| i <= j < n_columns ==> (#[trigger] columns@[j])@ == all[j],
                self@ == (AppenderView {
                    seen_debug: select_columns(
                        st.filter,
                        st.debug,
                        st.seen_debug,
                        key@.0,
                        stream,
                        all.take(i as int),
                    ).seen,
                    ..st
                }),
                actions_view(actions@) == acts0 + select_columns(
                    st.filter,
                    st.debug,
                    st.seen_debug,
                    key@.0,
                    stream,
                    all.take(i as int),
                ).trace,
                writes_view(chosen@) == select_columns(
                    st.filter,
                    st.debug,
                    st.seen_debug,
                    key@.0,
                    stream,
                    all.take(i as int),
                ).chosen,
            decreases n_columns - i,
        {
            let ghost before = select_columns(
                st.filter,
                st.debug,
                st.seen_debug,
                key@.0,
                stream,
                all.take(i as int),
            );
            proof {
                assert(all.take(i + 1).drop_last() =~= all.take(i as int));
                assert(all.take(i + 1).last() == all[i as int]);
            }
            let keep = match &self.filter {
                None => true,
                Some(f) => {
                    let path = f.get_path_string(
                        &key.route,
                        stream_metadata.name.as_str(),
                        columns[i].meta.name.as_str(),
                    );
                    let matched = f.matches(
                        &key.route,
                        stream_metadata.name.as_str(),
                        columns[i].meta.name.as_str(),
                    );
                    if self.debug && !holds_text(&self.seen_debug, &path) {
                        let ghost seen_before = texts_view(self.seen_debug@);
                        let ghost acts_before = actions_view(actions@);
                        let shown = path.clone();
                        self.seen_debug.push(path);
                        let action = ExportAction::Trace { path: shown, matched };
                        actions.push(action);
                        proof {
                            assert(texts_view(self.seen_debug@) =~= seen_before.push(shown@));
                            assert(actions_view(actions@) =~= acts_before.push(action@));
                            assert(acts_before.push(action@) =~= acts0 + before.trace.push(
                                action@,
                            ));
                        }
                    }
                    matched
                },
            };
            if keep {
                let ghost chosen_before = writes_view(chosen@);
                let mut data = ColumnBatch::UInt(Vec::new());
                core::mem::swap(&mut columns[i].data, &mut data);
                let write = ColumnWrite {
                    name: columns[i].meta.name.clone(),
                    units: copy_if_any(&columns[i].meta.units),
                    description: copy_if_any(&columns[i].meta.description),
                    data,
                };
                chosen.push(write);
                proof {
                    assert(write@ == column_write(all[i as int]));
                    assert(writes_view(chosen@) =~= chosen_before.push(write@));
                }
            }
            i += 1;
        }
        proof {
            assert(all.take(n_columns as int) =~= all);
        }
        let group_path = self.runs.group_path(stream_metadata.name.as_str(), key);
        let attributes = if is_first_chunk {
            Some(self.metadata_attributes(&segment_metadata, session_id, key))
        } else {
            None
        };
        let n = timestamps.len();
        let (start_time, end_time) = span_with(
            self.stats.start_time,
            self.stats.end_time,
            &timestamps,
        );
        self.stats.start_time = start_time;
        self.stats.end_time = end_time;
        let write = BatchWrite {
            key: key.clone(),
            group_path,
            attributes,
            sample_numbers,
            timestamps,
            columns: chosen,
        };
        let ghost acts_before = actions_view(actions@);
        let action = ExportAction::Write(write);
        actions.push(action);
        proof {
            assert(actions_view(actions@) =~= acts_before.push(action@));
        }
        self.stats.total_samples = if n as u64 <= u64::MAX - self.stats.total_samples {
            self.stats.total_samples + n as u64
        } else {
            u64::MAX
        };
        let mut path: Vec<char> = Vec::new();
        key.route.push_text(&mut path);
        path.push('/');
        push_str(&mut path, stream_metadata.name.as_str());
        let stream_path_text = string_of(&path);
        proof {
            assert(stream_path_text@ =~= stream_path(key@.0, stream));
        }
        if !holds_text(&self.stats.streams_written, &stream_path_text) {
            let ghost written = texts_view(self.stats.streams_written@);
            self.stats.streams_written.push(stream_path_text);
            proof {
                assert(texts_view(self.stats.streams_written@) =~= written.push(
                    stream_path(key@.0, stream),
                ));
            }
        }
    }

    /// Flushes the stream at position `i`.
    fn flush_index(&mut self, i: usize, actions: &mut Vec<ExportAction>)
        requires
            i < old(self)@.pending.len(),
        ensures
            final(self)@ == flush_at(old(self)@, i as int).0,
            actions_view(final(actions)@) == actions_view(old(actions)@) + flush_at(
                old(self)@,
                i as int,
            ).1,
            final(self)@.pending.len() == old(self)@.pending.len(),
    {
        let ghost entries = entries_view(self.pending@);
        if self.pending[i].batch.is_empty() {
            proof {
                assert(actions_view(actions@) + Seq::<ExportActionView>::empty() =~= actions_view(
                    actions@,
                ));
            }
            return ;
        }
        let drained = self.pending[i].batch.drain();
        let key = self.pending[i].key.clone();
        proof {
            assert(entries_view(self.pending@) =~= entries.update(
                i as int,
                (key@, batch_drained(entries[i as int].1)),
            ));
        }
        self.write_batch(&key, drained, actions);
    }

    /// Flushes stream `key`, if it was seen.
    fn flush_stream(&mut self, key: &StreamKey, actions: &mut Vec<ExportAction>)
        ensures
            final(self)@ == flush_stream_spec(old(self)@, key@).0,
            actions_view(final(actions)@) == actions_view(old(actions)@) + flush_stream_spec(
                old(self)@,
                key@,
            ).1,
            final(self)@.pending.len() == old(self)@.pending.len(),
    {
        let i = self.find_pending(key);
        if i < self.pending.len() {
            self.flush_index(i, actions);
        } else {
            proof {
                assert(actions_view(actions@) + Seq::<ExportActionView>::empty() =~= actions_view(
                    actions@,
                ));
            }
        }
    }

    /// Makes whatever the stream at position `i` writes next the first chunk
    /// of a run.
    fn mark_first(&mut self, i: usize)
        requires
            i < old(self)@.pending.len(),
        ensures
            final(self)@ == marked_first(old(self)@, i as int),
    {
        let ghost entries = entries_view(self.pending@);
        self.pending[i].batch.is_first_chunk = true;
        proof {
            let (key, batch) = entries[i as int];
            assert(entries_view(self.pending@) =~= entries.update(
                i as int,
                (key, PendingBatchView { is_first_chunk: true, ..batch }),
            ));
        }
    }

    /// Flushes all streams, or those of `device` where one is given, in the
    /// order in which they were first seen.
    fn flush_matching(
        &mut self,
        device: Option<&DeviceRoute>,
        mark: bool,
        actions: &mut Vec<ExportAction>,
    )
        ensures
            final(self)@ == flush_first(
                old(self)@,
                old(self)@.pending.len(),
                route_view(device),
                mark,
            ).0,
            actions_view(final(actions)@) == actions_view(old(actions)@) + flush_first(
                old(self)@,
                old(self)@.pending.len(),
                route_view(device),
                mark,
            ).1,
    {
        let ghost st = self@;
        let ghost acts0 = actions_view(actions@);
        let ghost dev = route_view(device);
        let n = self.pending.len();
        let mut i: usize = 0;
        proof {
            assert(acts0 + Seq::<ExportActionView>::empty() =~= acts0);
        }
        while i < n
            invariant
                i <= n,
                n == st.pending.len(),
                self@.pending.len() == n,
                dev == route_view(device),
                self@ == flush_first(st, i as nat, dev, mark).0,
                actions_view(actions@) == acts0 + flush_first(st, i as nat, dev, mark).1,
            decreases n - i,
        {
            let ghost done = flush_first(st, i as nat, dev, mark).1;
            let wanted = match device {
                None => true,
                Some(route) => self.pending[i].key.route.equals(route),
            };
            if wanted {
                let ghost more = flush_at(self@, i as int).1;
                self.flush_index(i, actions);
                if mark {
                    self.mark_first(i);
                }
                proof {
                    assert((acts0 + done) + more =~= acts0 + (done + more));
                }
            }
            i += 1;
        }
    }

    /// Flushes all streams of the device at `route`; each begins a run.
    fn flush_all_for_device(&mut self, route: &DeviceRoute, actions: &mut Vec<ExportAction>)
        ensures
            final(self)@ == flush_first(
                old(self)@,
                old(self)@.pending.len(),
                Some(route@),
                true,
            ).0,
            actions_view(final(actions)@) == actions_view(old(actions)@) + flush_first(
                old(self)@,
                old(self)@.pending.len(),
                Some(route@),
                true,
            ).1,
    {
        self.flush_matching(Some(route), true, actions);
    }

    /// Flushes all streams; each begins a run.
    fn flush_all(&mut self, actions: &mut Vec<ExportAction>)
        ensures
            final(self)@ == flush_first(old(self)@, old(self)@.pending.len(), None, true).0,
            actions_view(final(actions)@) == actions_view(old(actions)@) + flush_first(
                old(self)@,
                old(self)@.pending.len(),
                None,
                true,
            ).1,
    {
        self.flush_matching(None, true, actions);
    }

    /// Does what a discontinuity in stream `key` asks for at the split level.
    fn handle_discontinuity(&mut self, key: &StreamKey, actions: &mut Vec<ExportAction>)
        ensures
            final(self)@ == handle_discontinuity_spec(old(self)@, key@).0,
            actions_view(final(actions)@) == actions_view(old(actions)@)
                + handle_discontinuity_spec(old(self)@, key@).1,
    {
        match self.runs.level() {
            RunSplitLevel::Unsplit => {
                self.flush_stream(key, actions);
            },
            RunSplitLevel::PerStream => {
                self.flush_stream(key, actions);
                let i = self.find_pending(key);
                if i < self.pending.len() {
                    self.mark_first(i);
                }
            },
            RunSplitLevel::PerDevice => {
                self.flush_all_for_device(&key.route, actions);
            },
            RunSplitLevel::Global => {
                self.flush_all(actions);
            },
        }
        self.runs.advance(key);
    }

    /// Takes in a sample of stream `key` and returns what is to be written
    /// now, in the order in which it is to be written.
    pub fn write_sample(&mut self, sample: Sample, key: StreamKey) -> (actions: Vec<ExportAction>)
        ensures
            final(self)@ == write_sample_spec(old(self)@, sample@, key@).0,
            actions_view(actions@) == write_sample_spec(old(self)@, sample@, key@).1,
    {
        let mut actions: Vec<ExportAction> = Vec::new();
        proof {
            assert(actions_view(actions@) =~= Seq::empty());
        }
        let should_split = match self.split_policy {
            SplitPolicy::Continuous => !sample.is_continuous(),
            SplitPolicy::Monotonic => !sample.is_monotonic(),
        };
        if should_split {
            self.handle_discontinuity(&key, &mut actions);
        }
        self.settle(&sample, &key, &mut actions);
        actions
    }

    /// Puts a sample into the batch of its stream, which is begun if the
    /// stream is new, and returns the position of the batch.
    fn join(&mut self, sample: &Sample, key: &StreamKey) -> (i: usize)
        ensures
            final(self)@ == joined(old(self)@, sample@, key@),
            i == first_where(old(self)@.pending, keyed::<(Seq<u8>, u8), PendingBatchView>(key@)),
            i < final(self)@.pending.len(),
    {
        let ghost entries = entries_view(self.pending@);
        let i = self.find_pending(key);
        if i == self.pending.len() {
            let entry = PendingEntry { key: key.clone(), batch: PendingBatch::new(sample) };
            self.pending.push(entry);
            proof {
                assert(entries_view(self.pending@) =~= entries.push((key@, batch_new(sample@))));
            }
        }
        let ghost known = entries_view(self.pending@);
        proof {
            assert(known[i as int].0 == key@) by {
                lemma_first_where_bounds(entries, keyed(key@));
            }
        }
        self.pending[i].batch.push(sample);
        proof {
            assert(entries_view(self.pending@) =~= known.update(
                i as int,
                (key@, batch_push(known[i as int].1, sample@)),
            ));
        }
        i
    }

    /// Puts a sample into the batch of its stream and flushes the batch if it
    /// has reached the batch size.
    fn settle(&mut self, sample: &Sample, key: &StreamKey, actions: &mut Vec<ExportAction>)
        ensures
            final(self)@ == settle(old(self)@, sample@, key@).0,
            actions_view(final(actions)@) == actions_view(old(actions)@) + settle(
                old(self)@,
                sample@,
                key@,
            ).1,
    {
        let i = self.join(sample, key);
        if self.pending[i].batch.len() >= self.batch_size {
            self.flush_index(i, actions);
        } else {
            proof {
                assert(actions_view(actions@) + Seq::<ExportActionView>::empty() =~= actions_view(
                    actions@,
                ));
            }
        }
    }

    /// Flushes what still waits, in the order in which the streams were first
    /// seen, and returns what is to be written with what was written in all.
    pub fn finish(self) -> (r: (Vec<ExportAction>, ExportStats))
        ensures
            actions_view(r.0@) == flush_first(self@, self@.pending.len(), None, false).1,
            r.1@ == flush_first(self@, self@.pending.len(), None, false).0.stats,
    {
        let mut appender = self;
        let mut actions: Vec<ExportAction> = Vec::new();
        proof {
            assert(actions_view(actions@) =~= Seq::empty());
            assert(Seq::<ExportActionView>::empty() + flush_first(
                self@,
                self@.pending.len(),
                None,
                false,
            ).1 =~= flush_first(self@, self@.pending.len(), None, false).1);
        }
        appender.flush_matching(None, false, &mut actions);
        (actions, appender.stats)
    }
}

/// Whether two states of an export have the same settings and the same
/// streams in the same order.
pub open spec fn same_setup(a: AppenderView, b: AppenderView) -> bool {
    &&& a.filter == b.filter
    &&& a.compress == b.compress
    &&& a.debug == b.debug
    &&& a.batch_size == b.batch_size
    &&& a.split_policy == b.split_policy
    &&& a.runs.level == b.runs.level
    &&& a.pending.len() == b.pending.len()
    &&& forall|i: int| 0 <= i < a.pending.len() ==> (#[trigger] a.pending[i]).0 == b.pending[i].0
}

/// Writing a batch changes neither the settings nor the streams, and leaves
/// the run counters alone.
pub proof fn lemma_write_batch_keeps(st: AppenderView, key: (Seq<u8>, u8), batch: PendingBatchView)
    ensures
        same_setup(st, write_batch_spec(st, key, batch).0),
        write_batch_spec(st, key, batch).0.runs == st.runs,
        write_batch_spec(st, key, batch).0.pending == st.pending,
{
}

/// Flushing a stream changes neither the settings nor the streams, and leaves
/// the run counters alone.
pub proof fn lemma_flush_at_keeps(st: AppenderView, i: int)
    requires
        0 <= i < st.pending.len(),
    ensures
        same_setup(st, flush_at(st, i).0),
        flush_at(st, i).0.runs == st.runs,
{
    let (key, batch) = st.pending[i];
    let drained = AppenderView {
        pending: st.pending.update(i, (key, batch_drained(batch))),
        ..st
    };
    lemma_write_batch_keeps(drained, key, batch);
}

/// Flushing streams changes neither the settings nor the streams, and leaves
/// the run counters alone.
pub proof fn lemma_flush_first_keeps(
    st: AppenderView,
    n: nat,
    device: Option<Seq<u8>>,
    mark: bool,
)
    requires
        n <= st.pending.len(),
    ensures
        same_setup(st, flush_first(st, n, device, mark).0),
        flush_first(st, n, device, mark).0.runs == st.runs,
    decreases n,
{
    if n > 0 {
        lemma_flush_first_keeps(st, (n - 1) as nat, device, mark);
        let st1 = flush_first(st, (n - 1) as nat, device, mark).0;
        lemma_flush_at_keeps(st1, n - 1);
    }
}

/// A discontinuity changes neither the settings nor the streams.
pub proof fn lemma_discontinuity_keeps(st: AppenderView, key: (Seq<u8>, u8))
    ensures
        same_setup(st, handle_discontinuity_spec(st, key).0),
{
    lemma_first_where_bounds(st.pending, keyed::<(Seq<u8>, u8), PendingBatchView>(key));
    let i = first_where(st.pending, keyed::<(Seq<u8>, u8), PendingBatchView>(key));
    if i < st.pending.len() {
        lemma_flush_at_keeps(st, i);
    }
    let flushed = flush_stream_spec(st, key).0;
    lemma_first_where_bounds(flushed.pending, keyed::<(Seq<u8>, u8), PendingBatchView>(key));
    lemma_flush_first_keeps(st, st.pending.len(), Some(key.0), true);
    lemma_flush_first_keeps(st, st.pending.len(), None, true);
}

/// A sample that does not start a new run leaves the run counters alone.
pub proof fn lemma_no_split_keeps_runs(st: AppenderView, sample: SampleView, key: (Seq<u8>, u8))
    requires
        !splits(st.split_policy, sample),
    ensures
        write_sample_spec(st, sample, key).0.runs == st.runs,
{
    lemma_first_where_bounds(st.pending, keyed::<(Seq<u8>, u8), PendingBatchView>(key));
    let i = first_where(st.pending, keyed::<(Seq<u8>, u8), PendingBatchView>(key));
    let known = if i < st.pending.len() {
        st.pending
    } else {
        st.pending.push((key, batch_new(sample)))
    };
    let st2 = AppenderView {
        pending: known.update(i, (key, batch_push(known[i].1, sample))),
        ..st
    };
    lemma_flush_at_keeps(st2, i);
}

/// A sample that starts a new run counts up the counter that the split level
/// assigns to its stream, once.
pub proof fn lemma_split_advances_runs(st: AppenderView, sample: SampleView, key: (Seq<u8>, u8))
    requires
        splits(st.split_policy, sample),
    ensures
        write_sample_spec(st, sample, key).0.runs == st.runs.advanced(key),
{
    lemma_discontinuity_keeps(st, key);
    lemma_discontinuity_runs(st, key);
    let st1 = handle_discontinuity_spec(st, key).0;
    lemma_first_where_bounds(st1.pending, keyed::<(Seq<u8>, u8), PendingBatchView>(key));
    let i = first_where(st1.pending, keyed::<(Seq<u8>, u8), PendingBatchView>(key));
    let known = if i < st1.pending.len() {
        st1.pending
    } else {
        st1.pending.push((key, batch_new(sample)))
    };
    let st2 = AppenderView {
        pending: known.update(i, (key, batch_push(known[i].1, sample))),
        ..st1
    };
    lemma_flush_at_keeps(st2, i);
}

/// A discontinuity counts up the counter that the split level assigns to the
/// stream, once.
pub proof fn lemma_discontinuity_runs(st: AppenderView, key: (Seq<u8>, u8))
    ensures
        handle_discontinuity_spec(st, key).0.runs == st.runs.advanced(key),
{
    lemma_first_where_bounds(st.pending, keyed::<(Seq<u8>, u8), PendingBatchView>(key));
    let i = first_where(st.pending, keyed::<(Seq<u8>, u8), PendingBatchView>(key));
    if i < st.pending.len() {
        lemma_flush_at_keeps(st, i);
    }
    lemma_flush_first_keeps(st, st.pending.len(), Some(key.0), true);
    lemma_flush_first_keeps(st, st.pending.len(), None, true);
}

/// Under the monotonic policy only time going backward starts a new run; under
/// the continuous policy every boundary does but the first sample of a stream
/// and a changed column description.
pub proof fn lemma_what_splits(sample: SampleView)
    ensures
        splits(SplitPolicy::Monotonic, sample) <==> sample.boundary == Some(
            Boundary { reason: BoundaryReason::TimeWentBackward },
        ),
        splits(SplitPolicy::Continuous, sample) <==> sample.boundary is Some
            && sample.boundary->Some_0.reason != BoundaryReason::Initial
            && sample.boundary->Some_0.reason != BoundaryReason::ColumnDescChanged,
{
}

/// Without run splitting the group of a stream never changes: it is the path
/// of the stream, whatever was counted.
pub proof fn lemma_unsplit_group_is_stream_path(
    runs: RunCountersView,
    key: (Seq<u8>, u8),
    stream: Seq<char>,
)
    requires
        runs.level == RunSplitLevel::Unsplit,
    ensures
        group_path(runs, key, stream) == stream_path(key.0, stream),
        runs.advanced(key) == runs,
        runs.run_id(key) is None,
{
}

/// Whether every batch that waits holds as many sample numbers as times.
pub open spec fn batches_even(st: AppenderView) -> bool {
    forall|i: int|
        0 <= i < st.pending.len() ==> (#[trigger] st.pending[i]).1.sample_numbers.len()
            == st.pending[i].1.timestamps.len()
}

/// Whether every write in a list of actions holds at least one sample and as
/// many sample numbers as times.
pub open spec fn writes_even(actions: Seq<ExportActionView>) -> bool {
    forall|j: int|
        0 <= j < actions.len() ==> match #[trigger] actions[j] {
            ExportActionView::Write(w) => w.timestamps.len() > 0 && w.sample_numbers.len()
                == w.timestamps.len(),
            ExportActionView::Trace { .. } => true,
        }
}

/// Passing columns through the filter reports decisions and writes nothing.
pub proof fn lemma_selection_traces(
    filter: Option<Seq<char>>,
    debug: bool,
    seen: Seq<Seq<char>>,
    route: Seq<u8>,
    stream: Seq<char>,
    series: Seq<ColumnSeriesView>,
)
    ensures
        forall|j: int|
            0 <= j < select_columns(filter, debug, seen, route, stream, series).trace.len()
                ==> (#[trigger] select_columns(
                filter,
                debug,
                seen,
                route,
                stream,
                series,
            ).trace[j]) is Trace,
        filter is None ==> select_columns(filter, debug, seen, route, stream, series).chosen.len()
            == series.len() && select_columns(
            filter,
            debug,
            seen,
            route,
            stream,
            series,
        ).trace.len() == 0,
        !debug ==> select_columns(filter, debug, seen, route, stream, series).trace.len() == 0,
    decreases series.len(),
{
    if series.len() > 0 {
        lemma_selection_traces(filter, debug, seen, route, stream, series.drop_last());
    }
}

/// Writing a batch with as many sample numbers as times gives a write that
/// is even.
pub proof fn lemma_write_batch_even(st: AppenderView, key: (Seq<u8>, u8), batch: PendingBatchView)
    requires
        batch.sample_numbers.len() == batch.timestamps.len(),
    ensures
        writes_even(write_batch_spec(st, key, batch).1),
{
    lemma_selection_traces(
        st.filter,
        st.debug,
        st.seen_debug,
        key.0,
        batch.stream_metadata.name,
        batch.columns,
    );
}

/// Flushing a stream keeps the batches even and gives writes that are even.
pub proof fn lemma_flush_at_even(st: AppenderView, i: int)
    requires
        0 <= i < st.pending.len(),
        batches_even(st),
    ensures
        batches_even(flush_at(st, i).0),
        writes_even(flush_at(st, i).1),
{
    let (key, batch) = st.pending[i];
    let drained = AppenderView {
        pending: st.pending.update(i, (key, batch_drained(batch))),
        ..st
    };
    lemma_write_batch_even(drained, key, batch);
    lemma_write_batch_keeps(drained, key, batch);
}

/// Flushing streams keeps the batches even and gives writes that are even.
pub proof fn lemma_flush_first_even(st: AppenderView, n: nat, device: Option<Seq<u8>>, mark: bool)
    requires
        n <= st.pending.len(),
        batches_even(st),
    ensures
        batches_even(flush_first(st, n, device, mark).0),
        writes_even(flush_first(st, n, device, mark).1),
    decreases n,
{
    if n > 0 {
        lemma_flush_first_even(st, (n - 1) as nat, device, mark);
        lemma_flush_first_keeps(st, (n - 1) as nat, device, mark);
        let st1 = flush_first(st, (n - 1) as nat, device, mark).0;
        lemma_flush_at_even(st1, n - 1);
        lemma_flush_at_keeps(st1, n - 1);
    }
}

/// Making a stream begin a run keeps the batches even.
pub proof fn lemma_marked_first_even(st: AppenderView, i: int)
    requires
        0 <= i < st.pending.len(),
        batches_even(st),
    ensures
        batches_even(marked_first(st, i)),
{
    let after = marked_first(st, i);
    assert forall|j: int| 0 <= j < after.pending.len() implies (#[trigger] after.pending[j]).1.sample_numbers.len()
        == after.pending[j].1.timestamps.len() by {
        assert(st.pending[j].1.sample_numbers.len() == st.pending[j].1.timestamps.len());
    }
}

/// Flushing a stream by its key keeps the batches even and gives writes that
/// are even.
pub proof fn lemma_flush_stream_even(st: AppenderView, key: (Seq<u8>, u8))
    requires
        batches_even(st),
    ensures
        batches_even(flush_stream_spec(st, key).0),
        writes_even(flush_stream_spec(st, key).1),
        flush_stream_spec(st, key).0.pending.len() == st.pending.len(),
{
    let k = keyed::<(Seq<u8>, u8), PendingBatchView>(key);
    lemma_first_where_bounds(st.pending, k);
    let j = first_where(st.pending, k);
    if j < st.pending.len() {
        lemma_flush_at_even(st, j);
        lemma_flush_at_keeps(st, j);
    }
}

/// A discontinuity keeps the batches even and gives writes that are even.
pub proof fn lemma_discontinuity_even(st: AppenderView, key: (Seq<u8>, u8))
    requires
        batches_even(st),
    ensures
        batches_even(handle_discontinuity_spec(st, key).0),
        writes_even(handle_discontinuity_spec(st, key).1),
{
    match st.runs.level {
        RunSplitLevel::Unsplit => {
            lemma_flush_stream_even(st, key);
        },
        RunSplitLevel::PerStream => {
            lemma_flush_stream_even(st, key);
            let flushed = flush_stream_spec(st, key).0;
            let k = keyed::<(Seq<u8>, u8), PendingBatchView>(key);
            lemma_first_where_bounds(flushed.pending, k);
            let i = first_where(flushed.pending, k);
            if i < flushed.pending.len() {
                lemma_marked_first_even(flushed, i);
            }
        },
        RunSplitLevel::PerDevice => {
            lemma_flush_first_even(st, st.pending.len(), Some(key.0), true);
        },
        RunSplitLevel::Global => {
            lemma_flush_first_even(st, st.pending.len(), None, true);
        },
    }
}

/// Adding a sample to the batch of its stream keeps the batches even.
pub proof fn lemma_push_even(st: AppenderView, sample: SampleView, key: (Seq<u8>, u8))
    requires
        batches_even(st),
    ensures
        ({
            let i = first_where(st.pending, keyed::<(Seq<u8>, u8), PendingBatchView>(key));
            let known = if i < st.pending.len() {
                st.pending
            } else {
                st.pending.push((key, batch_new(sample)))
            };
            &&& 0 <= i < known.len()
            &&& batches_even(
                AppenderView {
                    pending: known.update(i, (key, batch_push(known[i].1, sample))),
                    ..st
                },
            )
        }),
{
    let k = keyed::<(Seq<u8>, u8), PendingBatchView>(key);
    lemma_first_where_bounds(st.pending, k);
    let i = first_where(st.pending, k);
    let known = if i < st.pending.len() {
        st.pending
    } else {
        st.pending.push((key, batch_new(sample)))
    };
    let after = known.update(i, (key, batch_push(known[i].1, sample)));
    assert forall|j: int| 0 <= j < after.len() implies (#[trigger] after[j]).1.sample_numbers.len()
        == after[j].1.timestamps.len() by {
        if j != i {
            assert(after[j] == st.pending[j]);
        } else if i < st.pending.len() {
            assert(st.pending[i].1.sample_numbers.len() == st.pending[i].1.timestamps.len());
        }
    }
}

/// Taking in a sample keeps the batches even, and every write that it asks
/// for holds at least one sample and as many sample numbers as times.
pub proof fn lemma_write_sample_even(st: AppenderView, sample: SampleView, key: (Seq<u8>, u8))
    requires
        batches_even(st),
    ensures
        batches_even(write_sample_spec(st, sample, key).0),
        writes_even(write_sample_spec(st, sample, key).1),
{
    let split = splits(st.split_policy, sample);
    if split {
        lemma_discontinuity_even(st, key);
    }
    let (st1, first) = if split {
        handle_discontinuity_spec(st, key)
    } else {
        (st, Seq::empty())
    };
    lemma_push_even(st1, sample, key);
    let i = first_where(st1.pending, keyed::<(Seq<u8>, u8), PendingBatchView>(key));
    let known = if i < st1.pending.len() {
        st1.pending
    } else {
        st1.pending.push((key, batch_new(sample)))
    };
    let st2 = AppenderView {
        pending: known.update(i, (key, batch_push(known[i].1, sample))),
        ..st1
    };
    lemma_flush_at_even(st2, i);
}

/// An export that has taken in nothing has no batch that waits.
pub proof fn lemma_fresh_is_even(
    filter: Option<Seq<char>>,
    compress: bool,
    debug: bool,
    batch_size: usize,
    split_policy: SplitPolicy,
    split_level: RunSplitLevel,
)
    ensures
        batches_even(
            fresh_appender(filter, compress, debug, batch_size, split_policy, split_level),
        ),
{
}

/// What an export holds after a run of samples, each with the key of its
/// stream, and all that is to be written for them, in order.
pub open spec fn replay(st: AppenderView, samples: Seq<(SampleView, (Seq<u8>, u8))>) -> (
    AppenderView,
    Seq<ExportActionView>,
)
    decreases samples.len(),
{
    if samples.len() == 0 {
        (st, Seq::empty())
    } else {
        let (before, actions) = replay(st, samples.drop_last());
        let (after, more) = write_sample_spec(before, samples.last().0, samples.last().1);
        (after, actions + more)
    }
}

/// All that an export writes for a run of samples, to the last batch that is
/// flushed at the end.
pub open spec fn export_of(st: AppenderView, samples: Seq<(SampleView, (Seq<u8>, u8))>) -> Seq<
    ExportActionView,
> {
    let (after, actions) = replay(st, samples);
    actions + flush_first(after, after.pending.len(), None, false).1
}

/// Samples taken in one run give what they give when taken in two runs, one
/// after the other: what is written for the first run followed by what is
/// written for the second, and the same export at the end.
pub proof fn lemma_replay_in_parts(
    st: AppenderView,
    first: Seq<(SampleView, (Seq<u8>, u8))>,
    second: Seq<(SampleView, (Seq<u8>, u8))>,
)
    ensures
        replay(st, first + second).0 == replay(replay(st, first).0, second).0,
        replay(st, first + second).1 == replay(st, first).1 + replay(
            replay(st, first).0,
            second,
        ).1,
    decreases second.len(),
{
    if second.len() == 0 {
        assert(first + second =~= first);
        assert(replay(st, first).1 + Seq::<ExportActionView>::empty() =~= replay(st, first).1);
    } else {
        let all = first + second;
        assert(all.drop_last() =~= first + second.drop_last());
        assert(all.last() == second.last());
        lemma_replay_in_parts(st, first, second.drop_last());
        let mid = replay(st, first).0;
        let a = replay(st, first).1;
        let b = replay(mid, second.drop_last()).1;
        let c = write_sample_spec(
            replay(mid, second.drop_last()).0,
            second.last().0,
            second.last().1,
        ).1;
        assert((a + b) + c =~= a + (b + c));
    }
}

/// Every write of an export whose batches are even holds at least one sample
/// and as many sample numbers as times.
pub proof fn lemma_export_is_even(st: AppenderView, samples: Seq<(SampleView, (Seq<u8>, u8))>)
    requires
        batches_even(st),
    ensures
        batches_even(replay(st, samples).0),
        writes_even(replay(st, samples).1),
        writes_even(export_of(st, samples)),
    decreases samples.len(),
{
    if samples.len() > 0 {
        lemma_export_is_even(st, samples.drop_last());
        let before = replay(st, samples.drop_last()).0;
        lemma_write_sample_even(before, samples.last().0, samples.last().1);
    }
    let after = replay(st, samples).0;
    lemma_flush_first_even(after, after.pending.len(), None, false);
}

/// The write that hands out a batch: to the group of the stream's current
/// run, with the group's attributes if it is the first chunk of the run.
pub open spec fn write_of(
    st: AppenderView,
    key: (Seq<u8>, u8),
    batch: PendingBatchView,
    columns: Seq<ColumnWriteView>,
) -> BatchWriteView {
    BatchWriteView {
        key,
        group_path: group_path(st.runs, key, batch.stream_metadata.name),
        attributes: if batch.is_first_chunk {
            Some(attributes_of(st.runs, batch, key))
        } else {
            None
        },
        sample_numbers: batch.sample_numbers,
        timestamps: batch.timestamps,
        columns,
    }
}

/// The batch of a stream that holds one sample, which begins a run.
pub open spec fn begun_with(held: PendingBatchView, sample: SampleView) -> PendingBatchView {
    PendingBatchView {
        sample_numbers: seq![sample.n],
        timestamps: seq![sample_end_time(sample.segment, sample.n)],
        columns: push_columns(Seq::empty(), sample.columns),
        stream_metadata: held.stream_metadata,
        segment_metadata: sample.segment,
        session_id: sample.device.session_id,
        is_first_chunk: true,
    }
}

/// Where every stream counts its own runs, a sample that starts a new run of
/// a stream of which samples wait does this and no more: what waits is written
/// to the group of the run that ends, the stream's run is counted up, and the
/// sample waits alone as the beginning of the next run, which takes its
/// session from it. What waits for other streams stays.
pub proof fn lemma_split_per_stream(st: AppenderView, sample: SampleView, key: (Seq<u8>, u8))
    requires
        st.runs.level == RunSplitLevel::PerStream,
        splits(st.split_policy, sample),
        st.batch_size > 1,
        first_where(st.pending, keyed::<(Seq<u8>, u8), PendingBatchView>(key)) < st.pending.len(),
        st.pending[first_where(
            st.pending,
            keyed::<(Seq<u8>, u8), PendingBatchView>(key),
        )].1.timestamps.len() > 0,
    ensures
        ({
            let i = first_where(st.pending, keyed::<(Seq<u8>, u8), PendingBatchView>(key));
            let batch = st.pending[i].1;
            let sel = select_columns(
                st.filter,
                st.debug,
                st.seen_debug,
                key.0,
                batch.stream_metadata.name,
                batch.columns,
            );
            let (after, actions) = write_sample_spec(st, sample, key);
            &&& actions == sel.trace.push(
                ExportActionView::Write(write_of(st, key, batch, sel.chosen)),
            )
            &&& after.runs == st.runs.advanced(key)
            &&& run_of(after.runs.stream_runs, key) == next_run(run_of(st.runs.stream_runs, key))
            &&& after.pending == st.pending.update(i, (key, begun_with(batch, sample)))
        }),
{
    let k = keyed::<(Seq<u8>, u8), PendingBatchView>(key);
    lemma_first_where_bounds(st.pending, k);
    let i = first_where(st.pending, k);
    let batch = st.pending[i].1;
    let (flushed, actions) = flush_stream_spec(st, key);
    lemma_write_batch_keeps(
        AppenderView { pending: st.pending.update(i, (key, batch_drained(batch))), ..st },
        key,
        batch,
    );
    assert(flushed.pending == st.pending.update(i, (key, batch_drained(batch))));
    lemma_first_where(flushed.pending, k, i);
    let marked = marked_first(flushed, i);
    let st1 = handle_discontinuity_spec(st, key).0;
    assert(st1.pending == marked.pending);
    lemma_first_where(st1.pending, k, i);
    lemma_run_bumped(st.runs.stream_runs, key);
    let st2 = joined(st1, sample, key);
    assert(st2.pending =~= st.pending.update(i, (key, begun_with(batch, sample))));
    assert(handle_discontinuity_spec(st, key).1 + Seq::<ExportActionView>::empty() =~= actions);
}

/// Counting up the run of a key counts it up by one, whether or not it was
/// counted before.
pub proof fn lemma_run_bumped<K>(runs: Seq<(K, RunId)>, key: K)
    ensures
        run_of(run_bumped(runs, key), key) == if first_where(runs, keyed::<K, RunId>(key))
            < runs.len() {
            next_run(run_of(runs, key))
        } else {
            1
        },
        run_of(runs, key) == 0 || first_where(runs, keyed::<K, RunId>(key)) < runs.len(),
{
    let k = keyed::<K, RunId>(key);
    lemma_first_where_bounds(runs, k);
    let i = first_where(runs, k);
    let after = run_bumped(runs, key);
    assert forall|j: int| 0 <= j < i implies !k(#[trigger] after[j]) by {
        assert(!k(runs[j]));
    }
    lemma_first_where(after, k, i);
}

/// A sample that starts no new run, of a stream of which samples wait and
/// whose batch it does not fill, is written nowhere yet: it waits after those
/// that waited, and no run is counted.
pub proof fn lemma_no_split_waits(st: AppenderView, sample: SampleView, key: (Seq<u8>, u8))
    requires
        !splits(st.split_policy, sample),
        first_where(st.pending, keyed::<(Seq<u8>, u8), PendingBatchView>(key)) < st.pending.len(),
        st.pending[first_where(
            st.pending,
            keyed::<(Seq<u8>, u8), PendingBatchView>(key),
        )].1.timestamps.len() + 1 < st.batch_size,
    ensures
        ({
            let i = first_where(st.pending, keyed::<(Seq<u8>, u8), PendingBatchView>(key));
            let (after, actions) = write_sample_spec(st, sample, key);
            &&& actions.len() == 0
            &&& after == (AppenderView {
                pending: st.pending.update(i, (key, batch_push(st.pending[i].1, sample))),
                ..st
            })
            &&& after.pending[i].1.sample_numbers == st.pending[i].1.sample_numbers.push(sample.n)
            &&& after.pending[i].1.session_id == (if begins_run(st.pending[i].1) {
                sample.device.session_id
            } else {
                st.pending[i].1.session_id
            })
        }),
{
    lemma_first_where_bounds(st.pending, keyed::<(Seq<u8>, u8), PendingBatchView>(key));
}

/// What an optional route holds.
pub open spec fn route_view(route: Option<&DeviceRoute>) -> Option<Seq<u8>> {
    match route {
        Some(r) => Some(r@),
        None => None,
    }
}

/// Name of the dataset of sample numbers in every group.
pub const SAMPLE_NUMBER_DATASET: &'static str = "sample_number";

/// Description of the dataset of sample numbers.
pub const SAMPLE_NUMBER_DESCRIPTION: &'static str = "Sample number from device";

/// Name of the dataset of sample times in every group.
pub const TIME_DATASET: &'static str = "time";

/// Description of the dataset of sample times.
pub const TIME_DESCRIPTION: &'static str = "Time in seconds";

/// The groups to make sure of before writing to the group at `path`, outermost
/// first: for each non-empty segment of the path, the path up to and with it.
pub open spec fn group_chain(path: Seq<char>) -> Seq<Seq<char>> {
    group_chain_from(Seq::empty(), path)
}

/// The groups named by the segments of `rest` below the group at `prefix`.
pub open spec fn group_chain_from(prefix: Seq<char>, rest: Seq<char>) -> Seq<Seq<char>>
    decreases rest.len(),
{
    if rest.len() == 0 {
        Seq::empty()
    } else {
        let end = first_slash(rest);
        let part = rest.take(end);
        let tail = if 0 <= end < rest.len() {
            rest.skip(end + 1)
        } else {
            Seq::empty()
        };
        if part.len() == 0 {
            group_chain_from(prefix, tail)
        } else {
            let current = prefix.push('/') + part;
            seq![current] + group_chain_from(current, tail)
        }
    }
}

/// The path of dataset `name` in the group at `group`.
pub open spec fn dataset_path_of(group: Seq<char>, name: Seq<char>) -> Seq<char> {
    group.push('/') + name
}

/// The path of dataset `name` in the group at `group_path`.
pub fn dataset_path(group_path: &str, name: &str) -> (r: String)
    ensures
        r@ == dataset_path_of(group_path@, name@),
{
    let mut out: Vec<char> = Vec::new();
    push_str(&mut out, group_path);
    out.push('/');
    push_str(&mut out, name);
    proof {
        assert(out@ =~= dataset_path_of(group_path@, name@));
    }
    string_of(&out)
}

/// The groups to make sure of before writing to the group at `path`,
/// outermost first.
pub fn group_ancestors(path: &str) -> (r: Vec<String>)
    ensures
        texts_view(r@) == group_chain(path@),
{
    let cs = chars_of(path);
    let mut out: Vec<String> = Vec::new();
    let mut current: Vec<char> = Vec::new();
    let mut pos: usize = 0;
    proof {
        assert(cs@.skip(0) =~= cs@);
        assert(texts_view(out@) =~= Seq::empty());
        assert(Seq::<Seq<char>>::empty() + group_chain(path@) =~= group_chain(path@));
    }
    while pos < cs.len()
        invariant
            pos <= cs.len(),
            cs@ == path@,
            group_chain(path@) == texts_view(out@) + group_chain_from(
                current@,
                cs@.skip(pos as int),
            ),
        decreases cs.len() - pos,
    {
        let ghost rest = cs@.skip(pos as int);
        let ghost done = texts_view(out@);
        let mut end: usize = pos;
        while end < cs.len() && cs[end] != '/'
            invariant
                pos <= end <= cs.len(),
                forall|k: int| pos <= k < end ==> cs@[k] != '/',
            decreases cs.len() - end,
        {
            end += 1;
        }
        proof {
            lemma_first_slash(rest, (end - pos) as int);
            assert(rest.take((end - pos) as int) =~= cs@.subrange(pos as int, end as int));
            if end < cs.len() {
                assert(rest.skip(end - pos + 1) =~= cs@.skip(end + 1));
            } else {
                assert(cs@.skip(cs.len() as int) =~= Seq::<char>::empty());
            }
        }
        if end > pos {
            let ghost prefix = current@;
            current.push('/');
            push_range(&mut current, &cs, pos, end);
            let text = string_of(&current);
            out.push(text);
            proof {
                assert(current@ =~= prefix.push('/') + rest.take((end - pos) as int));
                assert(texts_view(out@) =~= done.push(current@));
                let tail = if end < cs.len() {
                    cs@.skip(end + 1)
                } else {
                    Seq::<char>::empty()
                };
                assert(done + (seq![current@] + group_chain_from(current@, tail)) =~= done.push(
                    current@,
                ) + group_chain_from(current@, tail));
            }
        }
        pos = if end < cs.len() {
            end + 1
        } else {
            end
        };
    }
    proof {
        assert(cs@.skip(cs.len() as int) =~= Seq::<char>::empty());
        assert(texts_view(out@) + Seq::<Seq<char>>::empty() =~= texts_view(out@));
    }
    out
}

} // verus!
