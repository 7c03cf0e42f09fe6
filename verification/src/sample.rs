//! Samples: what the parser makes of stream data once it knows the stream.

use crate::meta::{
    ColumnMetadata, ColumnMetadataView, DeviceMetadata, DeviceMetadataView, SegmentMetadata,
    SegmentMetadataView, StreamData, StreamDataView, StreamMetadata, StreamMetadataView,
};
use crate::route::DeviceRoute;
use vstd::prelude::*;

verus! {

/// A number that is written out in floating point, kept in the form in which
/// it arrived.
#[derive(Clone, Copy, Debug, PartialEq, Eq, Structural)]
pub enum FloatValue {
    /// The bits of a single-precision number.
    Single(u32),
    /// The bits of a double-precision number.
    Double(u64),
    /// A whole number.
    Whole(i64),
}

/// The value of one column in one sample, widened to its buffer type.
#[derive(Clone, Copy, Debug, PartialEq, Eq, Structural)]
pub enum ColumnData {
    Float(FloatValue),
    Int(i64),
    UInt(u64),
}

/// Why the sample sequence of a stream is interrupted, or begins.
#[derive(Clone, Copy, Debug, PartialEq, Eq, Structural)]
pub enum BoundaryReason {
    /// The first sample of the stream.
    Initial,
    /// The device restarted.
    SessionChanged,
    /// The stream's name, column count or sample size changed.
    StreamMetadataChanged,
    /// The timing or filter parameters changed.
    SegmentChanged,
    /// The description of a column changed.
    ColumnDescChanged,
    /// The segment starts before the last sample that was emitted.
    TimeWentBackward,
    /// Sample numbers do not follow each other.
    SampleGap,
}

/// A point in the sample sequence at which something changed.
#[derive(Clone, Copy, Debug, PartialEq, Eq, Structural)]
pub struct Boundary {
    pub reason: BoundaryReason,
}

impl Boundary {
    /// Whether the samples before and after belong to one continuous series.
    pub open spec fn spec_is_continuous(self) -> bool {
        self.reason == BoundaryReason::Initial || self.reason == BoundaryReason::ColumnDescChanged
    }

    /// Whether time does not run backward across the boundary.
    pub open spec fn spec_is_monotonic(self) -> bool {
        self.reason != BoundaryReason::TimeWentBackward
    }

    /// Whether the samples before and after belong to one continuous series:
    /// so at the start of a stream and where only a column's description
    /// changed.
    #[verifier::when_used_as_spec(spec_is_continuous)]
    pub fn is_continuous(self) -> (r: bool)
        ensures
            r == self.spec_is_continuous(),
    {
        match self.reason {
            BoundaryReason::Initial | BoundaryReason::ColumnDescChanged => true,
            _ => false,
        }
    }

    /// Whether time does not run backward across the boundary.
    #[verifier::when_used_as_spec(spec_is_monotonic)]
    pub fn is_monotonic(self) -> (r: bool)
        ensures
            r == self.spec_is_monotonic(),
    {
        match self.reason {
            BoundaryReason::TimeWentBackward => false,
            _ => true,
        }
    }
}

/// A time in seconds, held exactly: `start_time` plus `steps` times
/// `decimation` divided by `sampling_rate`.
#[derive(Clone, Copy, Debug, PartialEq, Eq, Structural)]
pub struct TimePoint {
    pub start_time: u32,
    pub steps: i64,
    pub decimation: u32,
    pub sampling_rate: u32,
}

/// Whether time `a` lies before time `b`. Times whose sampling rate is zero
/// lie nowhere.
pub open spec fn time_before(a: TimePoint, b: TimePoint) -> bool {
    a.sampling_rate > 0 && b.sampling_rate > 0 && (a.start_time * a.sampling_rate + a.steps
        * a.decimation) * b.sampling_rate < (b.start_time * b.sampling_rate + b.steps
        * b.decimation) * a.sampling_rate
}

/// Whether time `a` lies before time `b`.
pub fn is_time_before(a: TimePoint, b: TimePoint) -> (r: bool)
    ensures
        r == time_before(a, b),
{
    if a.sampling_rate == 0 || b.sampling_rate == 0 {
        return false;
    }
    let a_rate = a.sampling_rate as i128;
    let b_rate = b.sampling_rate as i128;
    assert(0 <= a.start_time * a.sampling_rate <= 18446744065119617025) by (nonlinear_arith);
    assert(0 <= b.start_time * b.sampling_rate <= 18446744065119617025) by (nonlinear_arith);
    assert(-39614081247908796759917199360 <= a.steps * a.decimation
        <= 39614081247908796755622232065) by (nonlinear_arith);
    assert(-39614081247908796759917199360 <= b.steps * b.decimation
        <= 39614081247908796755622232065) by (nonlinear_arith);
    let a_ticks: i128 = a.start_time as i128 * a_rate + a.steps as i128 * a.decimation as i128;
    let b_ticks: i128 = b.start_time as i128 * b_rate + b.steps as i128 * b.decimation as i128;
    assert(-170141183381241069226646338159194931200 <= a_ticks * b_rate
        <= 170141183460469231667123699479375511550) by (nonlinear_arith)
        requires
            -39614081247908796759917199360 <= a_ticks <= 39614081266355540820741849090,
            0 < b_rate <= 4294967295,
    ;
    assert(-170141183381241069226646338159194931200 <= b_ticks * a_rate
        <= 170141183460469231667123699479375511550) by (nonlinear_arith)
        requires
            -39614081247908796759917199360 <= b_ticks <= 39614081266355540820741849090,
            0 < a_rate <= 4294967295,
    ;
    a_ticks * b_rate < b_ticks * a_rate
}

/// No time lies before itself, and a time that lies before another lies before
/// all that the other lies before.
pub proof fn lemma_time_order(a: TimePoint, b: TimePoint, c: TimePoint)
    ensures
        !time_before(a, a),
        time_before(a, b) && time_before(b, c) ==> time_before(a, c),
        !(time_before(a, b) && time_before(b, a)),
{
    if time_before(a, b) && time_before(b, c) {
        let x = a.start_time * a.sampling_rate + a.steps * a.decimation;
        let y = b.start_time * b.sampling_rate + b.steps * b.decimation;
        let z = c.start_time * c.sampling_rate + c.steps * c.decimation;
        let ra = a.sampling_rate as int;
        let rb = b.sampling_rate as int;
        let rc = c.sampling_rate as int;
        assert(x * rc < z * ra) by (nonlinear_arith)
            requires
                x * rb < y * ra,
                y * rc < z * rb,
                ra > 0,
                rb > 0,
                rc > 0,
        {
            assert(x * rb * rc < y * ra * rc);
            assert(y * rc * ra < z * rb * ra);
            assert((x * rc) * rb < (z * ra) * rb);
        }
    }
}

/// The time at which sample `n` of a segment ends.
pub open spec fn sample_end_time(segment: SegmentMetadataView, n: u32) -> TimePoint {
    TimePoint {
        start_time: segment.start_time,
        steps: (n + 1 - segment.sample_n_offset) as i64,
        decimation: segment.decimation,
        sampling_rate: segment.sampling_rate,
    }
}

/// One column of a sample: its description and its value.
#[derive(Debug)]
pub struct Column {
    pub desc: ColumnMetadata,
    pub value: ColumnData,
}

/// What a `Column` holds.
pub struct ColumnView {
    pub desc: ColumnMetadataView,
    pub value: ColumnData,
}

impl View for Column {
    type V = ColumnView;

    open spec fn view(&self) -> ColumnView {
        ColumnView { desc: self.desc@, value: self.value }
    }
}

impl Clone for Column {
    fn clone(&self) -> (r: Self)
        ensures
            r@ == self@,
    {
        Column { desc: self.desc.clone(), value: self.value }
    }
}

/// What a vector of columns holds.
pub open spec fn columns_view(columns: Seq<Column>) -> Seq<ColumnView> {
    columns.map_values(|c: Column| c@)
}

/// A copy of a vector of columns.
pub fn clone_columns(columns: &Vec<Column>) -> (r: Vec<Column>)
    ensures
        columns_view(r@) == columns_view(columns@),
{
    let mut out: Vec<Column> = Vec::new();
    let mut i: usize = 0;
    while i < columns.len()
        invariant
            i <= columns.len(),
            columns_view(out@) == columns_view(columns@).take(i as int),
        decreases columns.len() - i,
    {
        let ghost before = out@;
        let c = columns[i].clone();
        out.push(c);
        proof {
            assert(out@ == before.push(c));
            assert(columns_view(out@) =~= columns_view(before).push(c@));
            assert(columns_view(columns@)[i as int] == columns@[i as int]@);
            assert(columns_view(columns@).take(i + 1) =~= columns_view(columns@).take(
                i as int,
            ).push(columns@[i as int]@));
        }
        i += 1;
    }
    proof {
        assert(columns_view(columns@).take(columns.len() as int) =~= columns_view(columns@));
    }
    out
}

/// One sample of a stream, with everything needed to read it.
#[derive(Debug)]
pub struct Sample {
    /// The sample's number within its stream.
    pub n: u32,
    pub device: DeviceMetadata,
    pub stream: StreamMetadata,
    pub segment: SegmentMetadata,
    pub columns: Vec<Column>,
    /// The stream data that the sample was read from.
    pub source: StreamData,
    /// Set on the first sample after something changed.
    pub boundary: Option<Boundary>,
}

/// What a `Sample` holds.
pub struct SampleView {
    pub n: u32,
    pub device: DeviceMetadataView,
    pub stream: StreamMetadataView,
    pub segment: SegmentMetadataView,
    pub columns: Seq<ColumnView>,
    pub source: StreamDataView,
    pub boundary: Option<Boundary>,
}

impl View for Sample {
    type V = SampleView;

    open spec fn view(&self) -> SampleView {
        SampleView {
            n: self.n,
            device: self.device@,
            stream: self.stream@,
            segment: self.segment@,
            columns: columns_view(self.columns@),
            source: self.source@,
            boundary: self.boundary,
        }
    }
}

impl SampleView {
    /// Whether the sample continues the series before it.
    pub open spec fn is_continuous(self) -> bool {
        match self.boundary {
            None => true,
            Some(b) => b.spec_is_continuous(),
        }
    }

    /// Whether the sample does not lie before the one before it.
    pub open spec fn is_monotonic(self) -> bool {
        match self.boundary {
            None => true,
            Some(b) => b.spec_is_monotonic(),
        }
    }
}

impl Clone for Sample {
    fn clone(&self) -> (r: Self)
        ensures
            r@ == self@,
    {
        Sample {
            n: self.n,
            device: self.device.clone(),
            stream: self.stream.clone(),
            segment: self.segment.clone(),
            columns: clone_columns(&self.columns),
            source: self.source.clone(),
            boundary: self.boundary,
        }
    }
}

impl Sample {
    /// The time at which the sample ends: the segment's start time plus
    /// `n + 1 - sample_n_offset` sampling periods.
    pub fn timestamp_end(&self) -> (t: TimePoint)
        ensures
            t == sample_end_time(self@.segment, self.n),
    {
        let steps: i64 = self.n as i64 + 1 - self.segment.sample_n_offset as i64;
        TimePoint {
            start_time: self.segment.start_time,
            steps,
            decimation: self.segment.decimation,
            sampling_rate: self.segment.sampling_rate,
        }
    }

    /// Whether the sample continues the series before it: it carries no
    /// boundary, or one that is continuous.
    pub fn is_continuous(&self) -> (r: bool)
        ensures
            r == self@.is_continuous(),
    {
        match self.boundary {
            None => true,
            Some(b) => b.is_continuous(),
        }
    }

    /// Whether the sample does not lie before the one before it.
    pub fn is_monotonic(&self) -> (r: bool)
        ensures
            r == self@.is_monotonic(),
    {
        match self.boundary {
            None => true,
            Some(b) => b.is_monotonic(),
        }
    }

    /// Whether the sample is the first of a new session of its device, after
    /// which what is known of the device's part of the tree is to be fetched
    /// anew.
    pub fn begins_session(&self) -> (r: bool)
        ensures
            r == (self.boundary == Some(Boundary { reason: BoundaryReason::SessionChanged })),
    {
        match self.boundary {
            Some(b) => match b.reason {
                BoundaryReason::SessionChanged => true,
                _ => false,
            },
            None => false,
        }
    }
}

/// Names one stream in the sensor tree: the device's route and the stream's id.
#[derive(Debug)]
pub struct StreamKey {
    pub route: DeviceRoute,
    pub stream_id: u8,
}

impl View for StreamKey {
    type V = (Seq<u8>, u8);

    open spec fn view(&self) -> (Seq<u8>, u8) {
        (self.route@, self.stream_id)
    }
}

impl Clone for StreamKey {
    fn clone(&self) -> (r: Self)
        ensures
            r@ == self@,
    {
        StreamKey { route: self.route.clone(), stream_id: self.stream_id }
    }
}

impl StreamKey {
    /// The key of stream `stream_id` of the device at `route`.
    pub fn new(route: DeviceRoute, stream_id: u8) -> (k: StreamKey)
        ensures
            k@ == (route@, stream_id),
    {
        StreamKey { route, stream_id }
    }

    /// Whether both keys name the same stream.
    pub fn equals(&self, other: &StreamKey) -> (r: bool)
        ensures
            r == (self@ == other@),
    {
        self.stream_id == other.stream_id && self.route.equals(&other.route)
    }
}

} // verus!
