//! Turning the packets of one device into samples.
//!
//! The parser keeps what the device has said about itself and its streams.
//! Stream data is read once the device, the stream, its segment and all its
//! columns are known; until then it is dropped. The first sample that is read
//! after something changed carries a boundary that says what changed. Where
//! several things changed, the boundary names the gravest: time going
//! backward, then a new session, a new stream structure, a new segment, a gap
//! in the sample numbers, a new column description. The first sample of a
//! stream is marked as such whatever else happened before it.

use crate::meta::{
    ColumnMetadata, ColumnMetadataView, DataType, DeviceDescription, DeviceDescriptionView,
    DeviceMetadata, DeviceMetadataView, SegmentMetadata, SegmentMetadataView, StreamData,
    StreamDataView, StreamDescription, StreamDescriptionView, StreamMetadata, StreamMetadataView,
};
use crate::packet::{Packet, PacketView};
use crate::payload::{Payload, PayloadView};
use crate::route::DeviceRoute;
use crate::sample::{
    columns_view, is_time_before, sample_end_time, time_before, Boundary, BoundaryReason, Column,
    ColumnData, ColumnView, FloatValue, Sample, SampleView, TimePoint,
};
use crate::seqs::{first_where, lemma_first_where, lemma_first_where_bounds};
use crate::wire::{from_le16, from_le32, from_le64, read_le16, read_le32, read_le64, signed_of};
use vstd::prelude::*;

verus! {

/// How grave a reason is when several apply to one sample.
pub open spec fn severity(reason: BoundaryReason) -> nat {
    match reason {
        BoundaryReason::Initial => 0,
        BoundaryReason::ColumnDescChanged => 1,
        BoundaryReason::SampleGap => 2,
        BoundaryReason::SegmentChanged => 3,
        BoundaryReason::StreamMetadataChanged => 4,
        BoundaryReason::SessionChanged => 5,
        BoundaryReason::TimeWentBackward => 6,
    }
}

/// The reason to report when `reason` comes on top of what is pending: the
/// graver of the two.
pub open spec fn marked(pending: Option<BoundaryReason>, reason: BoundaryReason) -> Option<
    BoundaryReason,
> {
    match pending {
        Some(held) => if severity(held) >= severity(reason) {
            Some(held)
        } else {
            Some(reason)
        },
        None => Some(reason),
    }
}

/// The number after `n`; after the largest comes zero.
pub open spec fn next_sample_n(n: u32) -> u32 {
    if n == u32::MAX {
        0
    } else {
        (n + 1) as u32
    }
}

/// Number `first` counted up `i` times, starting over after the largest.
pub open spec fn sample_n(first: u32, i: nat) -> u32 {
    ((first + i) % 4294967296) as u32
}

/// What the parser holds of one stream.
pub struct StreamStateView {
    pub stream_id: u8,
    pub stream: Option<StreamMetadataView>,
    pub segment: Option<SegmentMetadataView>,
    /// The columns, by index; as many as the stream declares.
    pub columns: Seq<Option<ColumnMetadataView>>,
    /// Number of the last sample read, unless the session changed since.
    pub last_n: Option<u32>,
    /// The time at which the last sample read ended.
    pub last_time: Option<TimePoint>,
    /// Whether a sample of the stream was read.
    pub emitted: bool,
    /// What changed since the last sample was read.
    pub pending: Option<BoundaryReason>,
}

/// What the parser holds.
pub struct ParserView {
    pub ignore_session: bool,
    pub device: Option<DeviceMetadataView>,
    /// The streams heard of, in the order in which they were first heard of.
    pub streams: Seq<StreamStateView>,
}

/// Tells whether a stream state belongs to stream `id`.
pub open spec fn is_stream(id: u8) -> spec_fn(StreamStateView) -> bool {
    |s: StreamStateView| s.stream_id == id
}

/// What is held of a stream that was just heard of.
pub open spec fn new_stream(id: u8) -> StreamStateView {
    StreamStateView {
        stream_id: id,
        stream: None,
        segment: None,
        columns: Seq::empty(),
        last_n: None,
        last_time: None,
        emitted: false,
        pending: None,
    }
}

/// The streams with stream `id` among them: added at the end unless it is
/// there.
pub open spec fn with_stream(streams: Seq<StreamStateView>, id: u8) -> Seq<StreamStateView> {
    if first_where(streams, is_stream(id)) < streams.len() {
        streams
    } else {
        streams.push(new_stream(id))
    }
}

/// Whether all columns of a list are known.
pub open spec fn all_known(columns: Seq<Option<ColumnMetadataView>>) -> bool {
    forall|i: int| 0 <= i < columns.len() ==> (#[trigger] columns[i]) is Some
}

/// The columns of a list in which all are known.
pub open spec fn known_columns(columns: Seq<Option<ColumnMetadataView>>) -> Seq<
    ColumnMetadataView,
> {
    Seq::new(columns.len(), |i: int| columns[i]->Some_0)
}

/// Where column `k` begins within a sample.
pub open spec fn column_offset(columns: Seq<ColumnMetadataView>, k: nat) -> nat
    decreases k,
{
    if k == 0 {
        0
    } else {
        column_offset(columns, (k - 1) as nat) + columns[k - 1].data_type.spec_size()
    }
}

/// Whether a stream is fully described: the stream, its segment and all the
/// columns that it declares are known.
pub open spec fn described(s: StreamStateView) -> bool {
    &&& s.stream is Some
    &&& s.segment is Some
    &&& s.columns.len() == s.stream->Some_0.n_columns
    &&& all_known(s.columns)
}

/// Whether stream data can be read: the stream is fully described, a sample
/// takes at least one byte, and the columns fit into a sample.
pub open spec fn hot(s: StreamStateView) -> bool {
    &&& described(s)
    &&& s.stream->Some_0.sample_size > 0
    &&& column_offset(known_columns(s.columns), s.columns.len()) <= s.stream->Some_0.sample_size
}

/// The value of type `t` that begins at `at`, widened to its buffer type.
pub open spec fn value_at(t: DataType, data: Seq<u8>, at: int) -> ColumnData {
    match t {
        DataType::UInt8 => ColumnData::UInt(data[at] as u64),
        DataType::UInt16 => ColumnData::UInt(from_le16(data.subrange(at, at + 2)) as u64),
        DataType::UInt32 => ColumnData::UInt(from_le32(data.subrange(at, at + 4)) as u64),
        DataType::UInt64 => ColumnData::UInt(from_le64(data.subrange(at, at + 8))),
        DataType::Int8 => ColumnData::Int(signed_of(data[at] as int, 128) as i64),
        DataType::Int16 => ColumnData::Int(
            signed_of(from_le16(data.subrange(at, at + 2)) as int, 32768) as i64,
        ),
        DataType::Int32 => ColumnData::Int(
            signed_of(from_le32(data.subrange(at, at + 4)) as int, 2147483648) as i64,
        ),
        DataType::Int64 => ColumnData::Int(
            signed_of(from_le64(data.subrange(at, at + 8)) as int, 9223372036854775808) as i64,
        ),
        DataType::Float32 => ColumnData::Float(
            FloatValue::Single(from_le32(data.subrange(at, at + 4))),
        ),
        DataType::Float64 => ColumnData::Float(
            FloatValue::Double(from_le64(data.subrange(at, at + 8))),
        ),
    }
}

/// The first `k` columns of the sample that begins at `base`.
pub open spec fn sample_columns(
    columns: Seq<ColumnMetadataView>,
    data: Seq<u8>,
    base: int,
    k: nat,
) -> Seq<ColumnView>
    decreases k,
{
    if k == 0 {
        Seq::empty()
    } else {
        sample_columns(columns, data, base, (k - 1) as nat).push(
            ColumnView {
                desc: columns[k - 1],
                value: value_at(
                    columns[k - 1].data_type,
                    data,
                    base + column_offset(columns, (k - 1) as nat),
                ),
            },
        )
    }
}

/// The boundary that the first sample of stream data carries. The first
/// sample of a stream is marked as initial. Later, what is pending is
/// reported, or a gap if the sample's number does not follow the last one, or
/// time going backward if the sample ends before the last one did; the
/// gravest of those that apply.
pub open spec fn first_boundary(s: StreamStateView, first_n: u32, first_time: TimePoint) -> Option<
    Boundary,
> {
    if !s.emitted {
        Some(Boundary { reason: BoundaryReason::Initial })
    } else {
        let with_gap = if s.last_n is Some && first_n != next_sample_n(s.last_n->Some_0) {
            marked(s.pending, BoundaryReason::SampleGap)
        } else {
            s.pending
        };
        let with_time = if s.last_time is Some && time_before(first_time, s.last_time->Some_0) {
            marked(with_gap, BoundaryReason::TimeWentBackward)
        } else {
            with_gap
        };
        match with_time {
            Some(reason) => Some(Boundary { reason }),
            None => None,
        }
    }
}

/// Number of samples in stream data of a stream that can be read.
pub open spec fn sample_count(s: StreamStateView, source: StreamDataView) -> nat {
    (source.data.len() as int / s.stream->Some_0.sample_size as int) as nat
}

/// Sample `i` of stream data of a stream that can be read.
pub open spec fn sample_at(
    device: DeviceMetadataView,
    s: StreamStateView,
    source: StreamDataView,
    i: nat,
) -> SampleView {
    let n = sample_n(source.first_sample_n, i);
    SampleView {
        n,
        device,
        stream: s.stream->Some_0,
        segment: s.segment->Some_0,
        columns: sample_columns(
            known_columns(s.columns),
            source.data,
            i * s.stream->Some_0.sample_size,
            s.columns.len(),
        ),
        source,
        boundary: if i == 0 {
            first_boundary(s, n, sample_end_time(s.segment->Some_0, n))
        } else {
            None
        },
    }
}

/// The samples of stream data of a stream that can be read.
pub open spec fn samples_of(device: DeviceMetadataView, s: StreamStateView, source: StreamDataView)
    -> Seq<SampleView> {
    Seq::new(sample_count(s, source), |i: int| sample_at(device, s, source, i as nat))
}

/// What is held of a stream after samples were read from stream data.
pub open spec fn after_samples(s: StreamStateView, source: StreamDataView) -> StreamStateView {
    let count = sample_count(s, source);
    if count == 0 {
        s
    } else {
        let last = sample_n(source.first_sample_n, (count - 1) as nat);
        StreamStateView {
            last_n: Some(last),
            last_time: Some(sample_end_time(s.segment->Some_0, last)),
            emitted: true,
            pending: None,
            ..s
        }
    }
}

/// What is held of a stream after the device changed its session: the change
/// is pending, and the next sample number can be any.
pub open spec fn after_session_change(s: StreamStateView) -> StreamStateView {
    StreamStateView {
        last_n: None,
        pending: marked(s.pending, BoundaryReason::SessionChanged),
        ..s
    }
}

/// What is held of a stream after it was described. A description of another
/// structure than the one held drops the columns and is pending as a change;
/// so does the first description with the columns, without being pending.
pub open spec fn after_stream(s: StreamStateView, m: StreamMetadataView) -> StreamStateView {
    match s.stream {
        Some(held) => if StreamMetadata::structure_differs(held, m) {
            StreamStateView {
                stream: Some(m),
                columns: Seq::new(m.n_columns as nat, |i: int| None),
                pending: marked(s.pending, BoundaryReason::StreamMetadataChanged),
                ..s
            }
        } else {
            StreamStateView { stream: Some(m), ..s }
        },
        None => StreamStateView {
            stream: Some(m),
            columns: Seq::new(m.n_columns as nat, |i: int| None),
            ..s
        },
    }
}

/// What is held of a stream after its segment was described. A description
/// that differs from the one held is pending as a change.
pub open spec fn after_segment(s: StreamStateView, m: SegmentMetadataView) -> StreamStateView {
    StreamStateView {
        segment: Some(m),
        pending: if s.segment is Some && s.segment->Some_0 != m {
            marked(s.pending, BoundaryReason::SegmentChanged)
        } else {
            s.pending
        },
        ..s
    }
}

/// What is held of a stream after one of its columns was described. A column
/// that the stream does not declare is passed over. A description that differs
/// from the one held is pending as a change.
pub open spec fn after_column(s: StreamStateView, m: ColumnMetadataView) -> StreamStateView {
    if m.index >= s.columns.len() {
        s
    } else {
        StreamStateView {
            columns: s.columns.update(m.index as int, Some(m)),
            pending: if s.columns[m.index as int] is Some && s.columns[m.index as int]->Some_0
                != m {
                marked(s.pending, BoundaryReason::ColumnDescChanged)
            } else {
                s.pending
            },
            ..s
        }
    }
}

/// What the parser holds after a packet, and the samples that the packet
/// gives.
pub open spec fn process(st: ParserView, payload: PayloadView) -> (ParserView, Seq<SampleView>) {
    match payload {
        PayloadView::DeviceMetadata(m) => {
            let changed = !st.ignore_session && st.device is Some && st.device->Some_0.session_id
                != m.session_id;
            (
                ParserView {
                    device: Some(m),
                    streams: if changed {
                        st.streams.map_values(|s: StreamStateView| after_session_change(s))
                    } else {
                        st.streams
                    },
                    ..st
                },
                Seq::empty(),
            )
        },
        PayloadView::StreamMetadata(m) => {
            let streams = with_stream(st.streams, m.stream_id);
            let k = first_where(streams, is_stream(m.stream_id));
            (
                ParserView { streams: streams.update(k, after_stream(streams[k], m)), ..st },
                Seq::empty(),
            )
        },
        PayloadView::SegmentMetadata(m) => {
            let streams = with_stream(st.streams, m.stream_id);
            let k = first_where(streams, is_stream(m.stream_id));
            (
                ParserView { streams: streams.update(k, after_segment(streams[k], m)), ..st },
                Seq::empty(),
            )
        },
        PayloadView::ColumnMetadata(m) => {
            let k = first_where(st.streams, is_stream(m.stream_id));
            if k < st.streams.len() {
                (
                    ParserView {
                        streams: st.streams.update(k, after_column(st.streams[k], m)),
                        ..st
                    },
                    Seq::empty(),
                )
            } else {
                (st, Seq::empty())
            }
        },
        PayloadView::StreamData(d) => {
            let k = first_where(st.streams, is_stream(d.stream_id));
            if k < st.streams.len() && st.device is Some && hot(st.streams[k]) {
                (
                    ParserView {
                        streams: st.streams.update(k, after_samples(st.streams[k], d)),
                        ..st
                    },
                    samples_of(st.device->Some_0, st.streams[k], d),
                )
            } else {
                (st, Seq::empty())
            }
        },
        _ => (st, Seq::empty()),
    }
}

/// What the parser holds after a run of packets, and the samples that they
/// give.
pub open spec fn replay(st: ParserView, payloads: Seq<PayloadView>) -> (
    ParserView,
    Seq<SampleView>,
)
    decreases payloads.len(),
{
    if payloads.len() == 0 {
        (st, Seq::empty())
    } else {
        let (before, samples) = replay(st, payloads.drop_last());
        let (after, more) = process(before, payloads.last());
        (after, samples + more)
    }
}

/// What a parser holds before the first packet.
pub open spec fn fresh_parser(ignore_session: bool) -> ParserView {
    ParserView { ignore_session, device: None, streams: Seq::empty() }
}

/// What an optional column description holds.
pub open spec fn column_slot_view(slot: Option<ColumnMetadata>) -> Option<ColumnMetadataView> {
    match slot {
        Some(m) => Some(m@),
        None => None,
    }
}

/// What a vector of optional column descriptions holds.
pub open spec fn column_slots_view(slots: Seq<Option<ColumnMetadata>>) -> Seq<
    Option<ColumnMetadataView>,
> {
    slots.map_values(|slot: Option<ColumnMetadata>| column_slot_view(slot))
}

/// What the parser holds of one stream.
#[derive(Debug)]
pub struct StreamState {
    stream_id: u8,
    stream: Option<StreamMetadata>,
    segment: Option<SegmentMetadata>,
    columns: Vec<Option<ColumnMetadata>>,
    last_n: Option<u32>,
    last_time: Option<TimePoint>,
    emitted: bool,
    pending: Option<BoundaryReason>,
}

impl View for StreamState {
    type V = StreamStateView;

    closed spec fn view(&self) -> StreamStateView {
        StreamStateView {
            stream_id: self.stream_id,
            stream: match self.stream {
                Some(m) => Some(m@),
                None => None,
            },
            segment: match self.segment {
                Some(m) => Some(m@),
                None => None,
            },
            columns: column_slots_view(self.columns@),
            last_n: self.last_n,
            last_time: self.last_time,
            emitted: self.emitted,
            pending: self.pending,
        }
    }
}

/// What a vector of stream states holds.
pub open spec fn streams_view(streams: Seq<StreamState>) -> Seq<StreamStateView> {
    streams.map_values(|s: StreamState| s@)
}

/// What a vector of samples holds.
pub open spec fn samples_view(samples: Seq<Sample>) -> Seq<SampleView> {
    samples.map_values(|s: Sample| s@)
}

/// The reason to report when `reason` comes on top of what is pending.
fn mark(pending: Option<BoundaryReason>, reason: BoundaryReason) -> (r: Option<BoundaryReason>)
    ensures
        r == marked(pending, reason),
{
    match pending {
        Some(held) => if rank(held) >= rank(reason) {
            Some(held)
        } else {
            Some(reason)
        },
        None => Some(reason),
    }
}

/// How grave a reason is.
fn rank(reason: BoundaryReason) -> (r: u8)
    ensures
        r == severity(reason),
{
    match reason {
        BoundaryReason::Initial => 0,
        BoundaryReason::ColumnDescChanged => 1,
        BoundaryReason::SampleGap => 2,
        BoundaryReason::SegmentChanged => 3,
        BoundaryReason::StreamMetadataChanged => 4,
        BoundaryReason::SessionChanged => 5,
        BoundaryReason::TimeWentBackward => 6,
    }
}

/// The number after `n`; after the largest comes zero.
fn next_n(n: u32) -> (r: u32)
    ensures
        r == next_sample_n(n),
{
    if n == u32::MAX {
        0
    } else {
        n + 1
    }
}

/// The value of type `t` that begins at `at`.
fn read_value(t: DataType, data: &Vec<u8>, at: usize) -> (v: ColumnData)
    requires
        at + t.spec_size() <= data.len(),
    ensures
        v == value_at(t, data@, at as int),
{
    match t {
        DataType::UInt8 => ColumnData::UInt(data[at] as u64),
        DataType::UInt16 => ColumnData::UInt(read_le16(data, at) as u64),
        DataType::UInt32 => ColumnData::UInt(read_le32(data, at) as u64),
        DataType::UInt64 => ColumnData::UInt(read_le64(data, at)),
        DataType::Int8 => {
            let v = data[at] as i64;
            ColumnData::Int(
                if v >= 128 {
                    v - 256
                } else {
                    v
                },
            )
        },
        DataType::Int16 => {
            let v = read_le16(data, at) as i64;
            ColumnData::Int(
                if v >= 32768 {
                    v - 65536
                } else {
                    v
                },
            )
        },
        DataType::Int32 => {
            let v = read_le32(data, at) as i64;
            ColumnData::Int(
                if v >= 2147483648 {
                    v - 4294967296
                } else {
                    v
                },
            )
        },
        DataType::Int64 => {
            let v = read_le64(data, at);
            ColumnData::Int(
                if v >= 9223372036854775808 {
                    ((v - 9223372036854775808) as i64) - 9223372036854775807 - 1
                } else {
                    v as i64
                },
            )
        },
        DataType::Float32 => ColumnData::Float(FloatValue::Single(read_le32(data, at))),
        DataType::Float64 => ColumnData::Float(FloatValue::Double(read_le64(data, at))),
    }
}

/// The end of a column lies no further into a sample than the end of any
/// later column.
pub proof fn lemma_column_offset_grows(columns: Seq<ColumnMetadataView>, j: nat, k: nat)
    requires
        j <= k,
    ensures
        column_offset(columns, j) <= column_offset(columns, k),
    decreases k,
{
    if j < k {
        lemma_column_offset_grows(columns, j, (k - 1) as nat);
    }
}

impl StreamState {
    /// What is held of a stream that was just heard of.
    fn new(id: u8) -> (r: StreamState)
        ensures
            r@ == new_stream(id),
    {
        let r = StreamState {
            stream_id: id,
            stream: None,
            segment: None,
            columns: Vec::new(),
            last_n: None,
            last_time: None,
            emitted: false,
            pending: None,
        };
        proof {
            assert(column_slots_view(r.columns@) =~= Seq::empty());
        }
        r
    }

    /// Whether stream data can be read.
    fn is_hot(&self) -> (r: bool)
        ensures
            r == hot(self@),
    {
        let size = match &self.stream {
            Some(m) => {
                if self.columns.len() != m.n_columns as usize || m.sample_size == 0 {
                    return false;
                }
                m.sample_size as usize
            },
            None => {
                return false;
            },
        };
        if self.segment.is_none() {
            return false;
        }
        let ghost slots = column_slots_view(self.columns@);
        let mut total: usize = 0;
        let mut i: usize = 0;
        while i < self.columns.len()
            invariant
                i <= self.columns.len(),
                self.columns.len() <= 255,
                slots == column_slots_view(self.columns@),
                forall|j: int| 0 <= j < i ==> (#[trigger] slots[j]) is Some,
                total == column_offset(known_columns(slots), i as nat),
                total <= 8 * i,
            decreases self.columns.len() - i,
        {
            match &self.columns[i] {
                Some(m) => {
                    proof {
                        assert(slots[i as int] == Some(m@));
                    }
                    total = total + m.data_type.size();
                },
                None => {
                    proof {
                        assert(slots[i as int] is None);
                    }
                    return false;
                },
            }
            i += 1;
        }
        total <= size
    }

    /// The columns of the sample that begins at `base`.
    fn read_columns(&self, data: &Vec<u8>, base: usize) -> (r: Vec<Column>)
        requires
            hot(self@),
            base + self@.stream->Some_0.sample_size <= data.len(),
        ensures
            columns_view(r@) == sample_columns(
                known_columns(self@.columns),
                data@,
                base as int,
                self@.columns.len(),
            ),
    {
        let ghost slots = column_slots_view(self.columns@);
        let ghost known = known_columns(slots);
        let mut out: Vec<Column> = Vec::new();
        let mut at: usize = base;
        let mut k: usize = 0;
        proof {
            assert(columns_view(out@) =~= Seq::empty());
        }
        while k < self.columns.len()
            invariant
                k <= self.columns.len(),
                slots == column_slots_view(self.columns@),
                slots == self@.columns,
                known == known_columns(slots),
                hot(self@),
                base + self@.stream->Some_0.sample_size <= data.len(),
                at == base + column_offset(known, k as nat),
                columns_view(out@) == sample_columns(known, data@, base as int, k as nat),
            decreases self.columns.len() - k,
        {
            proof {
                lemma_column_offset_grows(known, (k + 1) as nat, slots.len());
                assert(slots[k as int] is Some);
            }
            match &self.columns[k] {
                Some(m) => {
                    proof {
                        assert(slots[k as int] == Some(m@));
                        assert(known[k as int] == m@);
                    }
                    let value = read_value(m.data_type, data, at);
                    let ghost before = columns_view(out@);
                    let column = Column { desc: m.clone(), value };
                    out.push(column);
                    proof {
                        assert(columns_view(out@) =~= before.push(column@));
                    }
                    at = at + m.data_type.size();
                },
                None => {},
            }
            k += 1;
        }
        out
    }
}

/// Counting up a sample number once more gives the next number.
pub proof fn lemma_sample_n_next(first: u32, i: nat)
    ensures
        sample_n(first, 0) == first,
        sample_n(first, i + 1) == next_sample_n(sample_n(first, i)),
{
}

impl StreamState {
    /// Takes note that the device changed its session.
    fn apply_session_change(&mut self)
        ensures
            final(self)@ == after_session_change(old(self)@),
    {
        self.last_n = None;
        self.pending = mark(self.pending, BoundaryReason::SessionChanged);
    }

    /// Takes note of a description of the stream.
    fn apply_stream(&mut self, m: &StreamMetadata)
        ensures
            final(self)@ == after_stream(old(self)@, m@),
    {
        let reset = match &self.stream {
            Some(held) => {
                if held.differs_in_structure(m) {
                    self.pending = mark(self.pending, BoundaryReason::StreamMetadataChanged);
                    true
                } else {
                    false
                }
            },
            None => true,
        };
        if reset {
            let mut columns: Vec<Option<ColumnMetadata>> = Vec::new();
            let mut i: u8 = 0;
            while i < m.n_columns
                invariant
                    i <= m.n_columns,
                    columns.len() == i,
                    forall|j: int| 0 <= j < i ==> (#[trigger] columns@[j]) is None,
                decreases m.n_columns - i,
            {
                columns.push(None);
                i += 1;
            }
            proof {
                assert(column_slots_view(columns@) =~= Seq::new(
                    m.n_columns as nat,
                    |i: int| None::<ColumnMetadataView>,
                ));
            }
            self.columns = columns;
        }
        self.stream = Some(m.clone());
    }

    /// Takes note of a description of the stream's segment.
    fn apply_segment(&mut self, m: &SegmentMetadata)
        ensures
            final(self)@ == after_segment(old(self)@, m@),
    {
        let changed = match &self.segment {
            Some(held) => !held.same_as(m),
            None => false,
        };
        if changed {
            self.pending = mark(self.pending, BoundaryReason::SegmentChanged);
        }
        self.segment = Some(m.clone());
    }

    /// Takes note of a description of one of the stream's columns.
    fn apply_column(&mut self, m: &ColumnMetadata)
        ensures
            final(self)@ == after_column(old(self)@, m@),
    {
        let index = m.index as usize;
        if index >= self.columns.len() {
            return ;
        }
        let ghost slots = column_slots_view(self.columns@);
        let changed = match &self.columns[index] {
            Some(held) => {
                proof {
                    assert(slots[index as int] == Some(held@));
                }
                !held.same_as(m)
            },
            None => {
                proof {
                    assert(slots[index as int] is None);
                }
                false
            },
        };
        if changed {
            self.pending = mark(self.pending, BoundaryReason::ColumnDescChanged);
        }
        self.columns[index] = Some(m.clone());
        proof {
            assert(column_slots_view(self.columns@) =~= slots.update(index as int, Some(m@)));
        }
    }

    /// The boundary that the first sample of stream data carries.
    fn boundary_for(&self, first_n: u32, first_time: TimePoint) -> (r: Option<Boundary>)
        ensures
            r == first_boundary(self@, first_n, first_time),
    {
        if !self.emitted {
            return Some(Boundary { reason: BoundaryReason::Initial });
        }
        let mut pending = self.pending;
        match self.last_n {
            Some(last) => {
                if first_n != next_n(last) {
                    pending = mark(pending, BoundaryReason::SampleGap);
                }
            },
            None => {},
        }
        match self.last_time {
            Some(last) => {
                if is_time_before(first_time, last) {
                    pending = mark(pending, BoundaryReason::TimeWentBackward);
                }
            },
            None => {},
        }
        match pending {
            Some(reason) => Some(Boundary { reason }),
            None => None,
        }
    }

    /// Reads the samples of stream data.
    fn read_samples(&mut self, device: &DeviceMetadata, source: &StreamData) -> (r: Vec<Sample>)
        requires
            hot(old(self)@),
        ensures
            samples_view(r@) == samples_of(device@, old(self)@, source@),
            final(self)@ == after_samples(old(self)@, source@),
    {
        let ghost s0 = self@;
        let mut out: Vec<Sample> = Vec::new();
        let (stream, segment) = match (&self.stream, &self.segment) {
            (Some(stream), Some(segment)) => (stream.clone(), segment.clone()),
            _ => {
                return out;
            },
        };
        let size = stream.sample_size as usize;
        let count = source.data.len() / size;
        proof {
            assert(count == sample_count(s0, source@));
            assert(samples_view(out@) =~= samples_of(device@, s0, source@).take(0));
            lemma_sample_n_next(source.first_sample_n, 0);
            assert(count * size <= source.data.len()) by (nonlinear_arith)
                requires
                    count == source.data.len() / size,
                    size > 0,
            ;
        }
        let mut n: u32 = source.first_sample_n;
        let mut last: u32 = n;
        let mut i: usize = 0;
        while i < count
            invariant
                i <= count,
                self@ == s0,
                hot(s0),
                stream@ == s0.stream->Some_0,
                segment@ == s0.segment->Some_0,
                size == stream.sample_size,
                size > 0,
                count == sample_count(s0, source@),
                count * size <= source.data.len(),
                n == sample_n(source.first_sample_n, i as nat),
                i > 0 ==> last == sample_n(source.first_sample_n, (i - 1) as nat),
                samples_view(out@) == samples_of(device@, s0, source@).take(i as int),
            decreases count - i,
        {
            proof {
                assert(i * size + size <= count * size) by (nonlinear_arith)
                    requires
                        i < count,
                        size > 0,
                ;
                lemma_sample_n_next(source.first_sample_n, i as nat);
            }
            let base = i * size;
            let columns = self.read_columns(&source.data, base);
            let boundary = if i == 0 {
                let end = TimePoint {
                    start_time: segment.start_time,
                    steps: n as i64 + 1 - segment.sample_n_offset as i64,
                    decimation: segment.decimation,
                    sampling_rate: segment.sampling_rate,
                };
                self.boundary_for(n, end)
            } else {
                None
            };
            let sample = Sample {
                n,
                device: device.clone(),
                stream: stream.clone(),
                segment: segment.clone(),
                columns,
                source: source.clone(),
                boundary,
            };
            let ghost before = samples_view(out@);
            proof {
                assert(sample@ == sample_at(device@, s0, source@, i as nat));
            }
            out.push(sample);
            proof {
                let all = samples_of(device@, s0, source@);
                assert(samples_view(out@) =~= before.push(sample_at(device@, s0, source@, i as nat)));
                assert(all.take(i + 1) =~= all.take(i as int).push(all[i as int]));
            }
            last = n;
            n = next_n(n);
            i += 1;
        }
        proof {
            let all = samples_of(device@, s0, source@);
            assert(all.take(count as int) =~= all);
        }
        if count > 0 {
            self.last_n = Some(last);
            self.last_time = Some(
                TimePoint {
                    start_time: segment.start_time,
                    steps: last as i64 + 1 - segment.sample_n_offset as i64,
                    decimation: segment.decimation,
                    sampling_rate: segment.sampling_rate,
                },
            );
            self.emitted = true;
            self.pending = None;
        }
        out
    }
}

/// Turns the packets of one device into samples.
#[derive(Debug)]
pub struct DeviceDataParser {
    ignore_session: bool,
    device: Option<DeviceMetadata>,
    streams: Vec<StreamState>,
}

impl View for DeviceDataParser {
    type V = ParserView;

    closed spec fn view(&self) -> ParserView {
        ParserView {
            ignore_session: self.ignore_session,
            device: match self.device {
                Some(m) => Some(m@),
                None => None,
            },
            streams: streams_view(self.streams@),
        }
    }
}

impl DeviceDataParser {
    /// A parser that has seen nothing. With `ignore_session`, a change of the
    /// device's session is passed over, as when logs of several sessions are
    /// read one after the other.
    pub fn new(ignore_session: bool) -> (r: DeviceDataParser)
        ensures
            r@ == fresh_parser(ignore_session),
    {
        let r = DeviceDataParser { ignore_session, device: None, streams: Vec::new() };
        proof {
            assert(streams_view(r.streams@) =~= Seq::empty());
        }
        r
    }

    /// Position of what is held of stream `id`, or the number of streams.
    fn find_stream(&self, id: u8) -> (k: usize)
        ensures
            k == first_where(self@.streams, is_stream(id)),
            k <= self.streams.len(),
    {
        let ghost streams = self@.streams;
        let mut k: usize = 0;
        while k < self.streams.len() && self.streams[k].stream_id != id
            invariant
                k <= self.streams.len(),
                streams == streams_view(self.streams@),
                forall|j: int| 0 <= j < k ==> !is_stream(id)(#[trigger] streams[j]),
            decreases self.streams.len() - k,
        {
            k += 1;
        }
        proof {
            lemma_first_where(streams, is_stream(id), k as int);
        }
        k
    }

    /// Position of what is held of stream `id`, which is begun if it is new.
    fn ensure_stream(&mut self, id: u8) -> (k: usize)
        ensures
            final(self)@ == (ParserView {
                streams: with_stream(old(self)@.streams, id),
                ..old(self)@
            }),
            k == first_where(final(self)@.streams, is_stream(id)),
            k < final(self).streams.len(),
    {
        let ghost streams = self@.streams;
        let k = self.find_stream(id);
        if k == self.streams.len() {
            let state = StreamState::new(id);
            self.streams.push(state);
            proof {
                assert(streams_view(self.streams@) =~= streams.push(new_stream(id)));
                lemma_first_where_bounds(streams, is_stream(id));
                lemma_first_where(streams.push(new_stream(id)), is_stream(id), k as int);
            }
        }
        k
    }

    /// Takes in a packet of the device and returns the samples that it gives.
    pub fn process_packet(&mut self, pkt: &Packet) -> (samples: Vec<Sample>)
        ensures
            final(self)@ == process(old(self)@, pkt@.payload).0,
            samples_view(samples@) == process(old(self)@, pkt@.payload).1,
    {
        self.process_payload(&pkt.payload)
    }

    /// Takes in what a packet of the device carries and returns the samples
    /// that it gives.
    pub fn process_payload(&mut self, payload: &Payload) -> (samples: Vec<Sample>)
        ensures
            final(self)@ == process(old(self)@, payload@).0,
            samples_view(samples@) == process(old(self)@, payload@).1,
    {
        let ghost st = self@;
        let mut samples: Vec<Sample> = Vec::new();
        proof {
            assert(samples_view(samples@) =~= Seq::empty());
        }
        match payload {
            Payload::DeviceMetadata(m) => {
                let changed = !self.ignore_session && match &self.device {
                    Some(held) => held.session_id != m.session_id,
                    None => false,
                };
                if changed {
                    let mut i: usize = 0;
                    while i < self.streams.len()
                        invariant
                            i <= self.streams.len(),
                            self.streams.len() == st.streams.len(),
                            self.ignore_session == st.ignore_session,
                            forall|j: int|
                                0 <= j < i ==> (#[trigger] self.streams@[j])@
                                    == after_session_change(st.streams[j]),
                            forall|j: int|
                                i <= j < self.streams.len() ==> (#[trigger] self.streams@[j])@
                                    == st.streams[j],
                        decreases self.streams.len() - i,
                    {
                        self.streams[i].apply_session_change();
                        i += 1;
                    }
                    proof {
                        assert(streams_view(self.streams@) =~= st.streams.map_values(
                            |s: StreamStateView| after_session_change(s),
                        ));
                    }
                }
                self.device = Some(m.clone());
            },
            Payload::StreamMetadata(m) => {
                let k = self.ensure_stream(m.stream_id);
                let ghost streams = streams_view(self.streams@);
                self.streams[k].apply_stream(m);
                proof {
                    assert(streams_view(self.streams@) =~= streams.update(
                        k as int,
                        after_stream(streams[k as int], m@),
                    ));
                }
            },
            Payload::SegmentMetadata(m) => {
                let k = self.ensure_stream(m.stream_id);
                let ghost streams = streams_view(self.streams@);
                self.streams[k].apply_segment(m);
                proof {
                    assert(streams_view(self.streams@) =~= streams.update(
                        k as int,
                        after_segment(streams[k as int], m@),
                    ));
                }
            },
            Payload::ColumnMetadata(m) => {
                let k = self.find_stream(m.stream_id);
                if k < self.streams.len() {
                    let ghost streams = streams_view(self.streams@);
                    self.streams[k].apply_column(m);
                    proof {
                        assert(streams_view(self.streams@) =~= streams.update(
                            k as int,
                            after_column(streams[k as int], m@),
                        ));
                    }
                }
            },
            Payload::StreamData(d) => {
                let k = self.find_stream(d.stream_id);
                if k < self.streams.len() {
                    let ghost streams = streams_view(self.streams@);
                    match &self.device {
                        Some(device) => {
                            if self.streams[k].is_hot() {
                                samples = self.streams[k].read_samples(device, d);
                                proof {
                                    assert(streams_view(self.streams@) =~= streams.update(
                                        k as int,
                                        after_samples(streams[k as int], d@),
                                    ));
                                }
                            }
                        },
                        None => {},
                    }
                }
            },
            _ => {},
        }
        samples
    }
}

/// The parser of one device of the tree.
#[derive(Debug)]
pub struct RoutedParser {
    pub route: DeviceRoute,
    pub parser: DeviceDataParser,
}

/// What a vector of routed parsers holds.
pub open spec fn routed_view(parsers: Seq<RoutedParser>) -> Seq<(Seq<u8>, ParserView)> {
    parsers.map_values(|p: RoutedParser| (p.route@, p.parser@))
}

/// What the parsers of a tree hold.
pub struct TreeView {
    pub ignore_session: bool,
    /// The parser of each device heard from, in the order in which the
    /// devices were first heard from.
    pub parsers: Seq<(Seq<u8>, ParserView)>,
}

/// Tells whether a routed parser belongs to the device at `route`.
pub open spec fn is_route(route: Seq<u8>) -> spec_fn((Seq<u8>, ParserView)) -> bool {
    |p: (Seq<u8>, ParserView)| p.0 == route
}

/// What the parsers of a tree hold after a packet, and the samples that the
/// packet gives: the packet goes to the parser of the device that it is
/// routed from, which is begun if the device is new.
pub open spec fn tree_process(st: TreeView, pkt: PacketView) -> (TreeView, Seq<SampleView>) {
    let k = first_where(st.parsers, is_route(pkt.routing));
    let known = if k < st.parsers.len() {
        st.parsers
    } else {
        st.parsers.push((pkt.routing, fresh_parser(st.ignore_session)))
    };
    let (after, samples) = process(known[k].1, pkt.payload);
    (TreeView { parsers: known.update(k, (pkt.routing, after)), ..st }, samples)
}

/// Turns the packets of a tree of devices into samples, with one parser for
/// each device.
#[derive(Debug)]
pub struct TreeParser {
    ignore_session: bool,
    parsers: Vec<RoutedParser>,
}

impl View for TreeParser {
    type V = TreeView;

    closed spec fn view(&self) -> TreeView {
        TreeView { ignore_session: self.ignore_session, parsers: routed_view(self.parsers@) }
    }
}

impl TreeParser {
    /// Parsers for a tree of which nothing was heard.
    pub fn new(ignore_session: bool) -> (r: TreeParser)
        ensures
            r@ == (TreeView { ignore_session, parsers: Seq::empty() }),
    {
        let r = TreeParser { ignore_session, parsers: Vec::new() };
        proof {
            assert(routed_view(r.parsers@) =~= Seq::empty());
        }
        r
    }

    /// Takes in a packet and returns the samples that it gives.
    pub fn process_packet(&mut self, pkt: &Packet) -> (samples: Vec<Sample>)
        ensures
            final(self)@ == tree_process(old(self)@, pkt@).0,
            samples_view(samples@) == tree_process(old(self)@, pkt@).1,
    {
        let ghost parsers = routed_view(self.parsers@);
        let mut k: usize = 0;
        while k < self.parsers.len() && !self.parsers[k].route.equals(&pkt.routing)
            invariant
                k <= self.parsers.len(),
                parsers == routed_view(self.parsers@),
                forall|j: int| 0 <= j < k ==> !is_route(pkt@.routing)(#[trigger] parsers[j]),
            decreases self.parsers.len() - k,
        {
            k += 1;
        }
        proof {
            lemma_first_where(parsers, is_route(pkt@.routing), k as int);
        }
        if k == self.parsers.len() {
            let entry = RoutedParser {
                route: pkt.routing.clone(),
                parser: DeviceDataParser::new(self.ignore_session),
            };
            self.parsers.push(entry);
            proof {
                assert(routed_view(self.parsers@) =~= parsers.push(
                    (pkt@.routing, fresh_parser(self.ignore_session)),
                ));
            }
        }
        let ghost known = routed_view(self.parsers@);
        let samples = self.parsers[k].parser.process_packet(pkt);
        proof {
            assert(known[k as int].0 == pkt@.routing);
            assert(routed_view(self.parsers@) =~= known.update(
                k as int,
                (pkt@.routing, process(known[k as int].1, pkt@.payload).0),
            ));
        }
        samples
    }
}

/// Stream data of a stream that cannot be read yet gives no samples and
/// leaves the parser as it was: so before the device, the stream, its segment
/// or one of its columns is known.
pub proof fn lemma_cold_stream_gives_nothing(st: ParserView, d: StreamDataView)
    requires
        ({
            let k = first_where(st.streams, is_stream(d.stream_id));
            k >= st.streams.len() || st.device is None || !hot(st.streams[k])
        }),
    ensures
        process(st, PayloadView::StreamData(d)).1.len() == 0,
        process(st, PayloadView::StreamData(d)).0 == st,
{
}

/// A stream without its description, without its segment or with a column
/// missing cannot be read.
pub proof fn lemma_incomplete_is_cold(s: StreamStateView, i: int)
    ensures
        s.stream is None ==> !hot(s),
        s.segment is None ==> !hot(s),
        0 <= i < s.columns.len() && s.columns[i] is None ==> !hot(s),
{
}

/// The first stream data that is read of a stream gives a first sample that
/// is marked as initial; no other sample of the data carries a boundary.
/// The samples are numbered on from the number that the data names, and each
/// has as many columns as the stream declares.
pub proof fn lemma_samples_of_hot_stream(
    st: ParserView,
    d: StreamDataView,
    i: int,
)
    requires
        st.device is Some,
        first_where(st.streams, is_stream(d.stream_id)) < st.streams.len(),
        hot(st.streams[first_where(st.streams, is_stream(d.stream_id))]),
        0 <= i < process(st, PayloadView::StreamData(d)).1.len(),
    ensures
        ({
            let s = st.streams[first_where(st.streams, is_stream(d.stream_id))];
            let samples = process(st, PayloadView::StreamData(d)).1;
            &&& samples.len() == d.data.len() as int / s.stream->Some_0.sample_size as int
            &&& samples[i].n == sample_n(d.first_sample_n, i as nat)
            &&& samples[i].columns.len() == s.stream->Some_0.n_columns
            &&& i > 0 ==> samples[i].boundary is None
            &&& i == 0 && !s.emitted ==> samples[i].boundary == Some(
                Boundary { reason: BoundaryReason::Initial },
            )
            &&& samples[i].stream == s.stream->Some_0
            &&& samples[i].segment == s.segment->Some_0
            &&& samples[i].device == st.device->Some_0
        }),
{
    let s = st.streams[first_where(st.streams, is_stream(d.stream_id))];
    lemma_sample_columns_len(known_columns(s.columns), d.data, i * s.stream->Some_0.sample_size, s.columns.len());
}

/// A sample has one column for each column that was read.
pub proof fn lemma_sample_columns_len(
    columns: Seq<ColumnMetadataView>,
    data: Seq<u8>,
    base: int,
    k: nat,
)
    ensures
        sample_columns(columns, data, base, k).len() == k,
    decreases k,
{
    if k > 0 {
        lemma_sample_columns_len(columns, data, base, (k - 1) as nat);
    }
}

/// Packets taken in one run give what they give when taken in two runs, one
/// after the other: the samples of the first run followed by those of the
/// second, and the same parser at the end.
pub proof fn lemma_replay_in_parts(st: ParserView, first: Seq<PayloadView>, second: Seq<PayloadView>)
    ensures
        replay(st, first + second).0 == replay(replay(st, first).0, second).0,
        replay(st, first + second).1 == replay(st, first).1 + replay(
            replay(st, first).0,
            second,
        ).1,
    decreases second.len(),
{
    if second.len() == 0 {
        assert(first + second =~= first);
        assert(replay(st, first).1 + Seq::<SampleView>::empty() =~= replay(st, first).1);
    } else {
        let all = first + second;
        assert(all.drop_last() =~= first + second.drop_last());
        assert(all.last() == second.last());
        lemma_replay_in_parts(st, first, second.drop_last());
        let mid = replay(st, first).0;
        let a = replay(st, first).1;
        let b = replay(mid, second.drop_last()).1;
        let c = process(replay(mid, second.drop_last()).0, second.last()).1;
        assert((a + b) + c =~= a + (b + c));
    }
}

impl DeviceDataParser {
    /// Takes in what a run of packets carries and returns the samples that
    /// they give, in the order of the packets.
    pub fn process_all(&mut self, payloads: &Vec<Payload>) -> (samples: Vec<Sample>)
        ensures
            final(self)@ == replay(old(self)@, payloads_view(payloads@)).0,
            samples_view(samples@) == replay(old(self)@, payloads_view(payloads@)).1,
    {
        let ghost st = self@;
        let ghost all = payloads_view(payloads@);
        let mut out: Vec<Sample> = Vec::new();
        let mut i: usize = 0;
        proof {
            assert(all.take(0) =~= Seq::<PayloadView>::empty());
            assert(samples_view(out@) =~= Seq::empty());
        }
        while i < payloads.len()
            invariant
                i <= payloads.len(),
                all == payloads_view(payloads@),
                self@ == replay(st, all.take(i as int)).0,
                samples_view(out@) == replay(st, all.take(i as int)).1,
            decreases payloads.len() - i,
        {
            proof {
                let next = all.take(i + 1);
                assert(next.drop_last() =~= all.take(i as int));
                assert(next.last() == payloads@[i as int]@);
            }
            let mut more = self.process_payload(&payloads[i]);
            let ghost before = samples_view(out@);
            let ghost added = samples_view(more@);
            out.append(&mut more);
            proof {
                assert(samples_view(out@) =~= before + added);
            }
            i += 1;
        }
        proof {
            assert(all.take(payloads.len() as int) =~= all);
        }
        out
    }
}

/// What a vector of payloads holds.
pub open spec fn payloads_view(payloads: Seq<Payload>) -> Seq<PayloadView> {
    payloads.map_values(|p: Payload| p@)
}

/// What is known of a stream that is fully described.
pub open spec fn stream_description(s: StreamStateView) -> StreamDescriptionView {
    StreamDescriptionView {
        stream: s.stream->Some_0,
        segment: s.segment->Some_0,
        columns: known_columns(s.columns),
    }
}

/// What the parser knows of its device, once the device is known with as many
/// streams as it declares, each fully described.
pub open spec fn description_of(st: ParserView) -> Option<DeviceDescriptionView> {
    if st.device is Some && st.streams.len() == st.device->Some_0.n_streams && (forall|i: int|
        0 <= i < st.streams.len() ==> described(#[trigger] st.streams[i])) {
        Some(
            DeviceDescriptionView {
                device: st.device->Some_0,
                streams: Seq::new(st.streams.len(), |i: int| stream_description(st.streams[i])),
            },
        )
    } else {
        None
    }
}

impl StreamState {
    /// What is known of the stream, if it is fully described.
    fn description(&self) -> (r: Option<StreamDescription>)
        ensures
            match r {
                Some(d) => described(self@) && d@ == stream_description(self@),
                None => !described(self@),
            },
    {
        let (stream, segment) = match (&self.stream, &self.segment) {
            (Some(stream), Some(segment)) => (stream, segment),
            _ => {
                return None;
            },
        };
        if self.columns.len() != stream.n_columns as usize {
            return None;
        }
        let ghost slots = column_slots_view(self.columns@);
        let mut columns: Vec<ColumnMetadata> = Vec::new();
        let mut i: usize = 0;
        while i < self.columns.len()
            invariant
                i <= self.columns.len(),
                slots == column_slots_view(self.columns@),
                columns.len() == i,
                forall|j: int| 0 <= j < i ==> (#[trigger] slots[j]) == Some(columns@[j]@),
            decreases self.columns.len() - i,
        {
            match &self.columns[i] {
                Some(m) => {
                    proof {
                        assert(slots[i as int] == Some(m@));
                    }
                    columns.push(m.clone());
                },
                None => {
                    proof {
                        assert(slots[i as int] is None);
                    }
                    return None;
                },
            }
            i += 1;
        }
        proof {
            assert(crate::meta::column_list_view(columns@) =~= known_columns(slots));
        }
        Some(StreamDescription { stream: stream.clone(), segment: segment.clone(), columns })
    }
}

impl DeviceDataParser {
    /// What the parser knows of its device, once the device is known with as
    /// many streams as it declares, each fully described.
    pub fn description(&self) -> (r: Option<DeviceDescription>)
        ensures
            match description_of(self@) {
                Some(d) => r is Some && r->Some_0@ == d,
                None => r is None,
            },
    {
        let device = match &self.device {
            Some(device) => device,
            None => {
                return None;
            },
        };
        if self.streams.len() != device.n_streams as usize {
            return None;
        }
        let ghost all = streams_view(self.streams@);
        let mut streams: Vec<StreamDescription> = Vec::new();
        let mut i: usize = 0;
        while i < self.streams.len()
            invariant
                i <= self.streams.len(),
                all == streams_view(self.streams@),
                streams.len() == i,
                forall|j: int| 0 <= j < i ==> described(#[trigger] all[j]),
                forall|j: int|
                    0 <= j < i ==> (#[trigger] streams@[j])@ == stream_description(all[j]),
            decreases self.streams.len() - i,
        {
            match self.streams[i].description() {
                Some(d) => {
                    streams.push(d);
                },
                None => {
                    proof {
                        assert(!described(all[i as int]));
                    }
                    return None;
                },
            }
            i += 1;
        }
        proof {
            assert(crate::meta::stream_list_view(streams@) =~= Seq::new(
                all.len(),
                |i: int| stream_description(all[i]),
            ));
        }
        Some(DeviceDescription { device: device.clone(), streams })
    }
}

} // verus!
