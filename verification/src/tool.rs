//! What the command-line tool decides: which routes it shows, what it prints
//! for a sample, which packets it logs, and how it names its files.

use crate::meta::{ColumnMetadata, DeviceDescription, StreamDescription};
use crate::packet::{packets_view, Packet, PacketView};
use crate::payload::{Payload, PayloadView};
use crate::route::{
    hops_before, relative_hops, route_display, DeviceRoute, MAX_ROUTING_SIZE,
};
use crate::rpc::{number_text, parse_number};
use crate::sample::{
    sample_end_time, BoundaryReason, ColumnData, ColumnView, FloatValue, Sample, SampleView,
    TimePoint,
};
use crate::seqs::{first_where, lemma_first_where, lemma_first_where_bounds};
use crate::text::{
    decimal, push_decimal, push_str, string_of, texts_view,
};
use std::fmt::Write;
use vstd::prelude::*;
use vstd::string::*;

verus! {

/// Whether a device at `route` is shown when the device at `target` is asked
/// for: it lies under the target, no more than `max_depth` levels below it
/// where a depth is given.
pub open spec fn shown(target: Seq<u8>, route: Seq<u8>, max_depth: Option<usize>) -> bool {
    match relative_hops(target, route) {
        Some(rel) => max_depth is None || rel.len() <= max_depth->Some_0,
        None => false,
    }
}

/// Whether a device at `route` is shown when the device at `target` is asked
/// for.
pub fn route_matches(target: &DeviceRoute, route: &DeviceRoute, max_depth: Option<usize>) -> (r:
    bool)
    ensures
        r == shown(target@, route@, max_depth),
{
    match target.relative_route(route) {
        Ok(rel) => match max_depth {
            Some(max) => rel.len() <= max,
            None => true,
        },
        Err(_) => false,
    }
}

/// Whether the device at `route` lies under the device at `target`, or is it.
pub fn in_subtree(target: &DeviceRoute, route: &DeviceRoute) -> (r: bool)
    ensures
        r == target@.is_prefix_of(route@),
{
    target.relative_route(route).is_ok()
}

/// The depth of the port that raw packets are read from: the depth asked
/// for, or the deepest there is.
pub fn port_depth(depth: Option<usize>) -> (r: usize)
    ensures
        r == match depth {
            Some(d) => d,
            None => MAX_ROUTING_SIZE,
        },
{
    match depth {
        Some(d) => d,
        None => MAX_ROUTING_SIZE,
    }
}

/// Whether samples are shown with their route: not when only the device
/// asked for is shown.
pub fn shows_route(max_depth: Option<usize>) -> (r: bool)
    ensures
        r == (max_depth != Some(0usize)),
{
    match max_depth {
        Some(d) => d > 0,
        None => true,
    }
}

/// How a packet's route stands to what is shown.
#[derive(Clone, Copy, Debug, PartialEq, Eq, Structural)]
pub enum RouteClass {
    /// It is shown.
    Shown,
    /// It lies under the target, deeper than what is shown.
    Deeper,
    /// It lies outside of the target.
    Outside,
}

/// How a packet's route stands to what is shown.
pub fn classify_route(target: &DeviceRoute, route: &DeviceRoute, max_depth: Option<usize>) -> (r:
    RouteClass)
    ensures
        r == if shown(target@, route@, max_depth) {
            RouteClass::Shown
        } else if target@.is_prefix_of(route@) {
            RouteClass::Deeper
        } else {
            RouteClass::Outside
        },
{
    if route_matches(target, route, max_depth) {
        RouteClass::Shown
    } else if in_subtree(target, route) {
        RouteClass::Deeper
    } else {
        RouteClass::Outside
    }
}

/// One line of what is printed for a sample.
#[derive(Clone, Copy, Debug, PartialEq, Eq, Structural)]
pub enum SampleLine {
    /// The boundary and its reason.
    Boundary(BoundaryReason),
    /// The device metadata.
    Device,
    /// The stream metadata.
    Stream,
    /// The description of the column at this position.
    Column(usize),
    /// The segment metadata.
    Segment,
    /// The sample itself.
    Data,
}

/// The lines that describe the columns at positions `0` to `n - 1`.
pub open spec fn column_lines(n: nat) -> Seq<SampleLine> {
    Seq::new(n, |i: int| SampleLine::Column(i as usize))
}

/// The lines printed for a sample. With metadata asked for, a sample with a
/// boundary is preceded by the boundary, by the device, the stream and the
/// columns where the boundary is not continuous, and by the segment. With
/// data asked for, the sample follows.
pub open spec fn lines_of(sample: SampleView, print_meta: bool, print_data: bool) -> Seq<
    SampleLine,
> {
    let meta = if print_meta && sample.boundary is Some {
        let b = sample.boundary->Some_0;
        seq![SampleLine::Boundary(b.reason)] + if b.spec_is_continuous() {
            Seq::empty()
        } else {
            seq![SampleLine::Device, SampleLine::Stream] + column_lines(sample.columns.len())
        } + seq![SampleLine::Segment]
    } else {
        Seq::empty()
    };
    if print_data {
        meta.push(SampleLine::Data)
    } else {
        meta
    }
}

/// The lines to print for a sample.
pub fn sample_lines(sample: &Sample, print_meta: bool, print_data: bool) -> (r: Vec<SampleLine>)
    ensures
        r@ == lines_of(sample@, print_meta, print_data),
{
    let mut out: Vec<SampleLine> = Vec::new();
    if print_meta {
        match sample.boundary {
            Some(b) => {
                out.push(SampleLine::Boundary(b.reason));
                if !b.is_continuous() {
                    out.push(SampleLine::Device);
                    out.push(SampleLine::Stream);
                    let mut i: usize = 0;
                    while i < sample.columns.len()
                        invariant
                            i <= sample.columns.len(),
                            out@ == seq![
                                SampleLine::Boundary(b.reason),
                                SampleLine::Device,
                                SampleLine::Stream,
                            ] + column_lines(i as nat),
                        decreases sample.columns.len() - i,
                    {
                        out.push(SampleLine::Column(i));
                        i += 1;
                        proof {
                            assert(out@ =~= seq![
                                SampleLine::Boundary(b.reason),
                                SampleLine::Device,
                                SampleLine::Stream,
                            ] + column_lines(i as nat));
                        }
                    }
                }
                out.push(SampleLine::Segment);
            },
            None => {},
        }
    }
    if print_data {
        out.push(SampleLine::Data);
    }
    proof {
        assert(out@ =~= lines_of(sample@, print_meta, print_data));
    }
    out
}

/// The packet that announces a payload for the device at `route`.
pub open spec fn update_of(payload: PayloadView, route: Seq<u8>) -> PacketView {
    PacketView { payload, routing: route, ttl: 0 }
}

/// The packets that announce the first `k` columns of a sample.
pub open spec fn column_updates(columns: Seq<ColumnView>, route: Seq<u8>, k: nat) -> Seq<
    PacketView,
> {
    Seq::new(k, |i: int| update_of(PayloadView::ColumnMetadata(columns[i].desc), route))
}

/// The packets that are logged for a sample of the device at `route`. A
/// sample with a boundary is preceded by the metadata of its device, stream,
/// segment and columns. The stream data that the sample was read from is
/// logged with its first sample.
pub open spec fn logged_for(sample: SampleView, route: Seq<u8>) -> Seq<PacketView> {
    let meta = if sample.boundary is Some {
        seq![
            update_of(PayloadView::DeviceMetadata(sample.device), route),
            update_of(PayloadView::StreamMetadata(sample.stream), route),
            update_of(PayloadView::SegmentMetadata(sample.segment), route),
        ] + column_updates(sample.columns, route, sample.columns.len())
    } else {
        Seq::empty()
    };
    if sample.n == sample.source.first_sample_n {
        meta.push(update_of(PayloadView::StreamData(sample.source), route))
    } else {
        meta
    }
}

/// The packets to log for a sample of the device at `route`.
pub fn log_packets(sample: &Sample, route: &DeviceRoute) -> (r: Vec<Packet>)
    ensures
        packets_view(r@) == logged_for(sample@, route@),
{
    let mut out: Vec<Packet> = Vec::new();
    proof {
        assert(packets_view(out@) =~= Seq::empty());
    }
    if sample.boundary.is_some() {
        let device = sample.device.make_update_with_route(route.clone());
        let stream = sample.stream.make_update_with_route(route.clone());
        let segment = sample.segment.make_update_with_route(route.clone());
        let ghost head = seq![device@, stream@, segment@];
        out.push(device);
        out.push(stream);
        out.push(segment);
        proof {
            assert(packets_view(out@) =~= head + column_updates(sample@.columns, route@, 0));
        }
        let mut i: usize = 0;
        while i < sample.columns.len()
            invariant
                i <= sample.columns.len(),
                sample@.columns.len() == sample.columns.len(),
                packets_view(out@) == head + column_updates(sample@.columns, route@, i as nat),
            decreases sample.columns.len() - i,
        {
            let ghost before = packets_view(out@);
            let packet = sample.columns[i].desc.make_update_with_route(route.clone());
            proof {
                assert(sample@.columns[i as int] == sample.columns@[i as int]@);
            }
            out.push(packet);
            i += 1;
            proof {
                assert(packets_view(out@) =~= before.push(packet@));
                assert(before.push(packet@) =~= head + column_updates(
                    sample@.columns,
                    route@,
                    i as nat,
                ));
            }
        }
    }
    if sample.n == sample.source.first_sample_n {
        let ghost before = packets_view(out@);
        let packet = Packet {
            payload: Payload::StreamData(sample.source.clone()),
            routing: route.clone(),
            ttl: 0,
        };
        out.push(packet);
        proof {
            assert(packets_view(out@) =~= before.push(packet@));
        }
    }
    out
}

/// The packets that announce the first `k` columns of a stream.
pub open spec fn described_columns(columns: Seq<ColumnMetadata>, k: nat) -> Seq<PacketView> {
    Seq::new(k, |i: int| update_of(PayloadView::ColumnMetadata(columns[i]@), Seq::empty()))
}

/// The packets that announce a stream: the stream, its segment, its columns.
pub open spec fn described_stream(s: StreamDescription) -> Seq<PacketView> {
    seq![
        update_of(PayloadView::StreamMetadata(s.stream@), Seq::empty()),
        update_of(PayloadView::SegmentMetadata(s.segment@), Seq::empty()),
    ] + described_columns(s.columns@, s.columns@.len())
}

/// The packets that announce the first `k` streams.
pub open spec fn described_streams(streams: Seq<StreamDescription>, k: nat) -> Seq<PacketView>
    decreases k,
{
    if k == 0 {
        Seq::empty()
    } else {
        described_streams(streams, (k - 1) as nat) + described_stream(streams[k - 1])
    }
}

/// The packets that carry the metadata of a device, for the root route: the
/// device, then each stream with its segment and columns.
pub fn metadata_packets(meta: &DeviceDescription) -> (r: Vec<Packet>)
    ensures
        packets_view(r@) == seq![
            update_of(PayloadView::DeviceMetadata(meta.device@), Seq::empty()),
        ] + described_streams(meta.streams@, meta.streams@.len()),
{
    let mut out: Vec<Packet> = Vec::new();
    let device = meta.device.make_update();
    let ghost head = seq![device@];
    out.push(device);
    proof {
        assert(packets_view(out@) =~= head + described_streams(meta.streams@, 0));
    }
    let mut k: usize = 0;
    while k < meta.streams.len()
        invariant
            k <= meta.streams.len(),
            packets_view(out@) == head + described_streams(meta.streams@, k as nat),
        decreases meta.streams.len() - k,
    {
        let s = &meta.streams[k];
        let ghost done = packets_view(out@);
        let stream = s.stream.make_update();
        let segment = s.segment.make_update();
        let ghost pair = seq![stream@, segment@];
        out.push(stream);
        out.push(segment);
        proof {
            assert(packets_view(out@) =~= done + (pair + described_columns(s.columns@, 0)));
        }
        let mut i: usize = 0;
        while i < s.columns.len()
            invariant
                i <= s.columns.len(),
                packets_view(out@) == done + (pair + described_columns(s.columns@, i as nat)),
            decreases s.columns.len() - i,
        {
            let ghost before = packets_view(out@);
            let packet = s.columns[i].make_update();
            out.push(packet);
            i += 1;
            proof {
                assert(packets_view(out@) =~= before.push(packet@));
                assert(before.push(packet@) =~= done + (pair + described_columns(
                    s.columns@,
                    i as nat,
                )));
            }
        }
        k += 1;
        proof {
            assert(done + described_stream(*s) =~= head + described_streams(
                meta.streams@,
                k as nat,
            ));
        }
    }
    out
}

/// Which stream is converted to CSV.
#[derive(Debug)]
pub enum StreamSelector {
    /// The stream with this id.
    Id(u8),
    /// The stream with this name.
    Name(String),
}

/// What a `StreamSelector` holds.
pub enum StreamSelectorView {
    Id(u8),
    Name(Seq<char>),
}

impl View for StreamSelector {
    type V = StreamSelectorView;

    open spec fn view(&self) -> StreamSelectorView {
        match self {
            StreamSelector::Id(id) => StreamSelectorView::Id(*id),
            StreamSelector::Name(name) => StreamSelectorView::Name(name@),
        }
    }
}

/// The stream that an argument selects: by id where the argument is a number
/// up to 255, else by name.
pub open spec fn selector_of(arg: Seq<char>) -> StreamSelectorView {
    match number_text(arg, 0, 255) {
        Some(id) => StreamSelectorView::Id(id as u8),
        None => StreamSelectorView::Name(arg),
    }
}

impl StreamSelector {
    /// The stream that an argument selects.
    pub fn new(stream_arg: &str) -> (r: StreamSelector)
        ensures
            r@ == selector_of(stream_arg@),
    {
        match parse_number(stream_arg, 0, 255) {
            Some(id) => StreamSelector::Id(id as u8),
            None => StreamSelector::Name(String::from_str(stream_arg)),
        }
    }

    /// Whether a sample belongs to the selected stream.
    pub fn selects(&self, sample: &Sample) -> (r: bool)
        ensures
            r == match self@ {
                StreamSelectorView::Id(id) => sample@.stream.stream_id == id,
                StreamSelectorView::Name(name) => sample@.stream.name == name,
            },
    {
        match self {
            StreamSelector::Id(id) => sample.stream.stream_id == *id,
            StreamSelector::Name(name) => sample.stream.name == *name,
        }
    }
}

/// The names of the first `k` columns, each after a comma.
pub open spec fn header_tail(columns: Seq<ColumnView>, k: nat) -> Seq<char>
    decreases k,
{
    if k == 0 {
        Seq::empty()
    } else {
        header_tail(columns, (k - 1) as nat) + seq![','] + columns[k - 1].desc.name
    }
}

/// The header row of the CSV of a stream: `time`, then the names of the
/// columns in their order, separated by commas.
pub fn csv_header(sample: &Sample) -> (r: String)
    ensures
        r@ == "time"@ + header_tail(sample@.columns, sample@.columns.len()),
{
    let mut out: Vec<char> = Vec::new();
    push_str(&mut out, "time");
    proof {
        assert(out@ =~= "time"@ + header_tail(sample@.columns, 0));
    }
    let mut k: usize = 0;
    while k < sample.columns.len()
        invariant
            k <= sample.columns.len(),
            sample@.columns.len() == sample.columns.len(),
            out@ == "time"@ + header_tail(sample@.columns, k as nat),
        decreases sample.columns.len() - k,
    {
        let ghost before = header_tail(sample@.columns, k as nat);
        out.push(',');
        push_str(&mut out, sample.columns[k].desc.name.as_str());
        proof {
            assert(sample@.columns[k as int] == sample.columns@[k as int]@);
            assert(out@ =~= "time"@ + (before + seq![','] + sample@.columns[k as int].desc.name));
        }
        k += 1;
    }
    string_of(&out)
}

/// One field of a row of CSV.
#[derive(Debug, PartialEq, Eq)]
pub enum CsvField {
    /// A time, printed in seconds with six decimal places.
    Time(TimePoint),
    /// A number in floating point.
    Float(FloatValue),
    /// This text.
    Text(String),
}

/// What a `CsvField` holds.
pub enum CsvFieldView {
    Time(TimePoint),
    Float(FloatValue),
    Text(Seq<char>),
}

impl View for CsvField {
    type V = CsvFieldView;

    open spec fn view(&self) -> CsvFieldView {
        match self {
            CsvField::Time(t) => CsvFieldView::Time(*t),
            CsvField::Float(v) => CsvFieldView::Float(*v),
            CsvField::Text(t) => CsvFieldView::Text(t@),
        }
    }
}

/// What a vector of fields holds.
pub open spec fn fields_view(fields: Seq<CsvField>) -> Seq<CsvFieldView> {
    fields.map_values(|f: CsvField| f@)
}

/// The field of a value: whole numbers in decimal, others left as they are.
pub open spec fn field_of(value: ColumnData) -> CsvFieldView {
    match value {
        ColumnData::Float(v) => CsvFieldView::Float(v),
        ColumnData::Int(v) => CsvFieldView::Text(crate::rpc::signed_decimal(v as int)),
        ColumnData::UInt(v) => CsvFieldView::Text(decimal(v as nat)),
    }
}

/// The fields of the first `k` columns.
pub open spec fn value_fields(columns: Seq<ColumnView>, k: nat) -> Seq<CsvFieldView> {
    Seq::new(k, |i: int| field_of(columns[i].value))
}

/// The fields of the row of a sample: the time at which it ends, then the
/// values of its columns in their order.
pub fn csv_fields(sample: &Sample) -> (r: Vec<CsvField>)
    ensures
        fields_view(r@) == seq![
            CsvFieldView::Time(sample_end_time(sample@.segment, sample@.n)),
        ] + value_fields(sample@.columns, sample@.columns.len()),
{
    let mut out: Vec<CsvField> = Vec::new();
    let time = CsvField::Time(sample.timestamp_end());
    let ghost head = seq![time@];
    out.push(time);
    proof {
        assert(fields_view(out@) =~= head + value_fields(sample@.columns, 0));
    }
    let mut k: usize = 0;
    while k < sample.columns.len()
        invariant
            k <= sample.columns.len(),
            sample@.columns.len() == sample.columns.len(),
            fields_view(out@) == head + value_fields(sample@.columns, k as nat),
        decreases sample.columns.len() - k,
    {
        let ghost before = fields_view(out@);
        let field = match sample.columns[k].value {
            ColumnData::Float(v) => CsvField::Float(v),
            ColumnData::Int(v) => {
                let mut text: Vec<char> = Vec::new();
                if v < 0 {
                    text.push('-');
                    let magnitude: u64 = if v == i64::MIN {
                        9223372036854775808
                    } else {
                        (-v) as u64
                    };
                    push_decimal(&mut text, magnitude);
                    proof {
                        assert(text@ =~= crate::rpc::signed_decimal(v as int));
                    }
                } else {
                    push_decimal(&mut text, v as u64);
                    proof {
                        assert(text@ =~= crate::rpc::signed_decimal(v as int));
                    }
                }
                CsvField::Text(string_of(&text))
            },
            ColumnData::UInt(v) => {
                let mut text: Vec<char> = Vec::new();
                push_decimal(&mut text, v);
                proof {
                    assert(text@ =~= decimal(v as nat));
                }
                CsvField::Text(string_of(&text))
            },
        };
        proof {
            assert(sample@.columns[k as int] == sample.columns@[k as int]@);
        }
        out.push(field);
        k += 1;
        proof {
            assert(fields_view(out@) =~= before.push(field@));
            assert(before.push(field@) =~= head + value_fields(sample@.columns, k as nat));
        }
    }
    out
}

/// The path of the CSV file of a stream: the output prefix, or the first
/// input file where none is given, then a dot, the stream as it was asked
/// for, and `.csv`.
pub fn csv_output_path(output: Option<&str>, first_file: &str, stream_arg: &str) -> (r: String)
    ensures
        r@ == match output {
            Some(o) => o@,
            None => first_file@,
        } + seq!['.'] + stream_arg@ + ".csv"@,
{
    let mut out: Vec<char> = Vec::new();
    match output {
        Some(o) => push_str(&mut out, o),
        None => push_str(&mut out, first_file),
    }
    out.push('.');
    push_str(&mut out, stream_arg);
    push_str(&mut out, ".csv");
    proof {
        assert(out@ =~= match output {
            Some(o) => o@,
            None => first_file@,
        } + seq!['.'] + stream_arg@ + ".csv"@);
    }
    string_of(&out)
}

/// Whether session changes are passed over when logs are converted to CSV:
/// so when several logs are read, or metadata comes from a file of its own.
pub fn csv_ignores_session(n_files: usize, has_metadata: bool) -> (r: bool)
    ensures
        r == (n_files > 1 || has_metadata),
{
    n_files > 1 || has_metadata
}

/// Whether session changes are passed over when logs are read one after the
/// other: so when there are several.
pub fn ignores_session(n_files: usize) -> (r: bool)
    ensures
        r == (n_files > 1),
{
    n_files > 1
}

/// Names tried for an export whose output was not named, after the first.
pub const MAX_OUTPUT_ATTEMPTS: u32 = 1000;

/// The name tried for an export at the given attempt: the stem with `.h5`
/// at first, then the stem, an underscore, the number of the attempt and
/// `.h5`.
pub fn hdf_output_name(stem: &str, attempt: u32) -> (r: String)
    ensures
        r@ == if attempt == 0 {
            stem@ + ".h5"@
        } else {
            stem@ + seq!['_'] + decimal(attempt as nat) + ".h5"@
        },
{
    let mut out: Vec<char> = Vec::new();
    push_str(&mut out, stem);
    if attempt > 0 {
        out.push('_');
        push_decimal(&mut out, attempt as u64);
    }
    push_str(&mut out, ".h5");
    proof {
        if attempt == 0 {
            assert(out@ =~= stem@ + ".h5"@);
        } else {
            assert(out@ =~= stem@ + seq!['_'] + decimal(attempt as nat) + ".h5"@);
        }
    }
    string_of(&out)
}

/// How the time that a log was begun at is written into its name: the date
/// as year, month and day, a dash, the time as hour, minute and second.
pub const LOG_STAMP_FORMAT: &'static str = "%Y%m%d-%H%M%S";

/// Calls `chrono::Local::now` and `DateTime::format`: the local time of the
/// machine, written in the given format. What it gives depends on the clock
/// and on the time zone, so nothing is stated of it. Of a format that chrono
/// does not read nothing is written. Chrono does not read a clock that stands
/// before 1970.
#[verifier::external_body]
fn local_time_text(format: &str) -> (r: String) {
    let mut out = String::new();
    let _ = write!(out, "{}", chrono::Local::now().format(format));
    out
}

/// The name of a log with the given stamp.
pub open spec fn log_name(stamp: Seq<char>) -> Seq<char> {
    "log."@ + stamp + ".tio"@
}

/// The name of a log with the given stamp: `log.`, the stamp and `.tio`.
pub fn log_file_name(stamp: &str) -> (r: String)
    ensures
        r@ == log_name(stamp@),
{
    let mut out: Vec<char> = Vec::new();
    push_str(&mut out, "log.");
    push_str(&mut out, stamp);
    push_str(&mut out, ".tio");
    proof {
        assert(out@ =~= log_name(stamp@));
    }
    string_of(&out)
}

/// The name of a log that is begun now and was given no name: that of the
/// stamp which the local time gives.
pub fn default_log_path() -> (r: String)
    ensures
        exists|stamp: Seq<char>| r@ == log_name(stamp),
{
    let stamp = local_time_text(LOG_STAMP_FORMAT);
    log_file_name(stamp.as_str())
}

/// Tells whether a route does not come before `route`.
pub open spec fn not_before(route: Seq<u8>) -> spec_fn(Seq<u8>) -> bool {
    |r: Seq<u8>| !hops_before(r, route)
}

/// A list of routes with `route` in it: put before the first route that does
/// not come before it, unless that is the route itself.
pub open spec fn with_route(routes: Seq<Seq<u8>>, route: Seq<u8>) -> Seq<Seq<u8>> {
    let k = first_where(routes, not_before(route));
    if k < routes.len() && routes[k] == route {
        routes
    } else {
        routes.insert(k, route)
    }
}

/// What a vector of routes holds.
pub open spec fn routes_view(routes: Seq<DeviceRoute>) -> Seq<Seq<u8>> {
    routes.map_values(|r: DeviceRoute| r@)
}

/// The routes under the target from which packets came that were too deep to
/// be shown: each once, in lexicographic order.
#[derive(Debug)]
pub struct DeeperRoutes {
    routes: Vec<DeviceRoute>,
}

impl View for DeeperRoutes {
    type V = Seq<Seq<u8>>;

    closed spec fn view(&self) -> Seq<Seq<u8>> {
        routes_view(self.routes@)
    }
}

impl DeeperRoutes {
    /// No routes.
    pub fn new() -> (r: DeeperRoutes)
        ensures
            r@ == Seq::<Seq<u8>>::empty(),
            in_order(r@),
    {
        let r = DeeperRoutes { routes: Vec::new() };
        proof {
            assert(routes_view(r.routes@) =~= Seq::empty());
        }
        r
    }

    /// Number of routes.
    pub fn len(&self) -> (n: usize)
        ensures
            n == self@.len(),
    {
        self.routes.len()
    }

    /// The route at position `i`.
    pub fn get(&self, i: usize) -> (r: &DeviceRoute)
        requires
            i < self@.len(),
        ensures
            r@ == self@[i as int],
    {
        &self.routes[i]
    }

    /// Puts a route into the list.
    pub fn insert(&mut self, route: &DeviceRoute)
        ensures
            final(self)@ == with_route(old(self)@, route@),
            in_order(old(self)@) ==> in_order(final(self)@),
    {
        let ghost routes = routes_view(self.routes@);
        proof {
            if in_order(routes) {
                lemma_with_route_in_order(routes, route@);
            }
        }
        let mut k: usize = 0;
        while k < self.routes.len() && self.routes[k].precedes(route)
            invariant
                k <= self.routes.len(),
                routes == routes_view(self.routes@),
                forall|j: int| 0 <= j < k ==> !not_before(route@)(#[trigger] routes[j]),
            decreases self.routes.len() - k,
        {
            k += 1;
        }
        proof {
            lemma_first_where(routes, not_before(route@), k as int);
        }
        if k < self.routes.len() && self.routes[k].equals(route) {
            return ;
        }
        self.routes.insert(k, route.clone());
        proof {
            assert(routes_view(self.routes@) =~= routes.insert(k as int, route@));
        }
    }
}

/// Whether a list of routes is in lexicographic order, each route once.
pub open spec fn in_order(routes: Seq<Seq<u8>>) -> bool {
    forall|i: int, j: int| 0 <= i < j < routes.len() ==> hops_before(routes[i], routes[j])
}

/// Putting a route into a list that is in order keeps the list in order; the
/// list then holds the route, and whatever it held before, and nothing else.
pub proof fn lemma_with_route_in_order(routes: Seq<Seq<u8>>, route: Seq<u8>)
    requires
        in_order(routes),
    ensures
        in_order(with_route(routes, route)),
        with_route(routes, route).contains(route),
        forall|r: Seq<u8>| routes.contains(r) ==> with_route(routes, route).contains(r),
        forall|r: Seq<u8>|
            with_route(routes, route).contains(r) ==> r == route || routes.contains(r),
{
    let k = first_where(routes, not_before(route));
    lemma_first_where_bounds(routes, not_before(route));
    let after = with_route(routes, route);
    if k < routes.len() && routes[k] == route {
        assert(after[k] == route);
    } else {
        assert(after[k] == route);
        assert forall|i: int, j: int| 0 <= i < j < after.len() implies hops_before(
            after[i],
            after[j],
        ) by {
            if j < k {
            } else if j == k {
                assert(!not_before(route)(routes[i]));
            } else if i == k {
                // What follows the new route does not come before it, and is not it.
                crate::route::lemma_before_total(routes[j - 1], route);
                if j - 1 > k {
                    assert(hops_before(routes[k], routes[j - 1]));
                    if hops_before(routes[j - 1], route) {
                        crate::route::lemma_before_transitive(routes[k], routes[j - 1], route);
                        assert(not_before(route)(routes[k]));
                    }
                    if routes[j - 1] == route {
                        assert(not_before(route)(routes[k]));
                    }
                } else {
                    assert(not_before(route)(routes[k]));
                }
            } else if i < k {
                assert(after[i] == routes[i]);
                assert(after[j] == routes[j - 1]);
            } else {
                assert(after[i] == routes[i - 1]);
                assert(after[j] == routes[j - 1]);
            }
        }
        assert forall|r: Seq<u8>| routes.contains(r) implies after.contains(r) by {
            let x = choose|x: int| 0 <= x < routes.len() && routes[x] == r;
            if x < k {
                assert(after[x] == r);
            } else {
                assert(after[x + 1] == r);
            }
        }
        assert forall|r: Seq<u8>| after.contains(r) implies r == route || routes.contains(r) by {
            let x = choose|x: int| 0 <= x < after.len() && after[x] == r;
            if x < k {
                assert(routes[x] == r);
            } else if x > k {
                assert(routes[x - 1] == r);
            }
        }
    }
}

/// The lines that name the first `k` routes, each after two spaces.
pub open spec fn route_lines(routes: Seq<Seq<u8>>, k: nat) -> Seq<Seq<char>> {
    Seq::new(k, |i: int| seq![' ', ' '] + route_display(routes[i]))
}

/// What is said when nothing was shown: nothing, unless packets came from
/// deeper routes. Then the first five of those routes are named, the number
/// of the others is given, and a way out is suggested.
pub open spec fn warning_of(sensor: Seq<char>, printed_any: bool, deeper: Seq<Seq<u8>>) -> Seq<
    Seq<char>,
> {
    if printed_any || deeper.len() == 0 {
        Seq::empty()
    } else {
        let shown = if deeper.len() > 5 {
            5
        } else {
            deeper.len()
        };
        seq!["No data at route "@ + sensor + ", but found data at:"@] + route_lines(deeper, shown)
            + if deeper.len() > 5 {
            seq!["  ... and "@ + decimal((deeper.len() - 5) as nat) + " more"@]
        } else {
            Seq::empty()
        } + seq![
            Seq::empty(),
            "Use -s to specify a different route, or remove --depth to include all"@,
        ]
    }
}

/// The lines to say when a dump ends.
pub fn dump_warning(sensor: &str, printed_any: bool, deeper: &DeeperRoutes) -> (r: Vec<String>)
    ensures
        texts_view(r@) == warning_of(sensor@, printed_any, deeper@),
{
    let mut out: Vec<String> = Vec::new();
    proof {
        assert(texts_view(out@) =~= Seq::empty());
    }
    if printed_any || deeper.len() == 0 {
        return out;
    }
    let mut first = String::from_str("No data at route ");
    first.append(sensor);
    first.append(", but found data at:");
    let ghost head = seq![first@];
    out.push(first);
    let shown: usize = if deeper.len() > 5 {
        5
    } else {
        deeper.len()
    };
    proof {
        assert(texts_view(out@) =~= head + route_lines(deeper@, 0));
    }
    let mut i: usize = 0;
    while i < shown
        invariant
            i <= shown <= deeper@.len(),
            texts_view(out@) == head + route_lines(deeper@, i as nat),
        decreases shown - i,
    {
        let ghost before = texts_view(out@);
        let mut line = String::from_str("  ");
        line.append(deeper.get(i).to_string().as_str());
        proof {
            reveal_strlit("  ");
            assert("  "@ =~= seq![' ', ' ']);
        }
        out.push(line);
        i += 1;
        proof {
            assert(texts_view(out@) =~= before.push(line@));
            assert(before.push(line@) =~= head + route_lines(deeper@, i as nat));
        }
    }
    if deeper.len() > 5 {
        let ghost before = texts_view(out@);
        let mut count: Vec<char> = Vec::new();
        push_str(&mut count, "  ... and ");
        push_decimal(&mut count, (deeper.len() - 5) as u64);
        push_str(&mut count, " more");
        let line = string_of(&count);
        proof {
            assert(line@ =~= "  ... and "@ + decimal((deeper@.len() - 5) as nat) + " more"@);
        }
        out.push(line);
        proof {
            assert(texts_view(out@) =~= before.push(line@));
        }
    }
    let ghost before = texts_view(out@);
    let blank = String::new();
    let hint = String::from_str(
        "Use -s to specify a different route, or remove --depth to include all",
    );
    out.push(blank);
    out.push(hint);
    proof {
        assert(texts_view(out@) =~= before + seq![blank@, hint@]);
        assert(texts_view(out@) =~= warning_of(sensor@, printed_any, deeper@));
    }
    out
}

} // verus!
