use twinleaf::cli::SplitLevel;
use twinleaf::export::{
    dataset_path, group_ancestors, BatchWrite, ColumnBatch, ExportAction, Hdf5Appender,
    RunSplitLevel, SplitPolicy,
};
use twinleaf::filter::ColumnFilter;
use twinleaf::meta::{
    ColumnMetadata, DataType, DeviceMetadata, SegmentMetadata, StreamData, StreamMetadata,
};
use twinleaf::route::DeviceRoute;
use twinleaf::sample::{
    Boundary, BoundaryReason, Column, ColumnData, FloatValue, Sample, StreamKey, TimePoint,
};

fn route(s: &str) -> DeviceRoute {
    DeviceRoute::from_str(s).unwrap()
}

fn key(r: &str, stream_id: u8) -> StreamKey {
    StreamKey::new(route(r), stream_id)
}

fn column(index: u8, name: &str, data_type: DataType, value: ColumnData) -> Column {
    Column {
        desc: ColumnMetadata {
            stream_id: 1,
            index,
            name: name.to_string(),
            units: if name == "x" { "nT".to_string() } else { String::new() },
            description: if name == "x" { "field".to_string() } else { String::new() },
            data_type,
        },
        value,
    }
}

fn sample_of(stream: &str, n: u32, boundary: Option<BoundaryReason>) -> Sample {
    Sample {
        n,
        device: DeviceMetadata {
            serial: "S".to_string(),
            firmware: "F".to_string(),
            session_id: 42,
            n_streams: 1,
        },
        stream: StreamMetadata {
            stream_id: 1,
            name: stream.to_string(),
            sample_size: 12,
            n_columns: 2,
            total_samples: 0,
        },
        segment: SegmentMetadata {
            stream_id: 1,
            sampling_rate: 1000,
            decimation: 2,
            filter_cutoff: 7,
            filter_type: 3,
            time_ref_epoch: 4,
            time_ref_serial: String::new(),
            start_time: 100,
            sample_n_offset: 0,
        },
        columns: vec![
            column(0, "x", DataType::Float32, ColumnData::Float(FloatValue::Single(n))),
            column(1, "count", DataType::UInt64, ColumnData::UInt(n as u64 * 10)),
        ],
        source: StreamData { stream_id: 1, first_sample_n: n, data: vec![] },
        boundary: boundary.map(|reason| Boundary { reason }),
    }
}

fn sample(n: u32, boundary: Option<BoundaryReason>) -> Sample {
    sample_of("vector", n, boundary)
}

fn writes(actions: Vec<ExportAction>) -> Vec<BatchWrite> {
    actions
        .into_iter()
        .map(|a| match a {
            ExportAction::Write(w) => w,
            other => panic!("expected a write, got {:?}", other),
        })
        .collect()
}

fn appender(policy: SplitPolicy, level: RunSplitLevel, batch_size: usize) -> Hdf5Appender {
    Hdf5Appender::with_options(false, false, None, batch_size, policy, level)
}

#[test]
fn time_going_backward_splits_runs_per_stream() {
    let mut a = appender(SplitPolicy::Monotonic, RunSplitLevel::PerStream, 65536);
    let k = key("/", 1);
    assert!(a.write_sample(sample(0, Some(BoundaryReason::Initial)), k.clone()).is_empty());
    assert!(a.write_sample(sample(1, None), k.clone()).is_empty());
    let first = writes(a.write_sample(sample(2, Some(BoundaryReason::TimeWentBackward)), k.clone()));
    assert_eq!(first.len(), 1);
    assert_eq!(first[0].group_path, "/vector/run_000000");
    assert_eq!(first[0].sample_numbers, vec![0, 1]);
    assert_eq!(first[0].attributes.as_ref().unwrap().run_id, Some(0));
    assert!(a.write_sample(sample(3, None), k.clone()).is_empty());
    assert_eq!(a.get_run_id(&k), Some(1));
    let (rest, stats) = a.finish();
    let second = writes(rest);
    assert_eq!(second.len(), 1);
    assert_eq!(second[0].group_path, "/vector/run_000001");
    assert_eq!(second[0].sample_numbers, vec![2, 3]);
    assert_eq!(second[0].attributes.as_ref().unwrap().run_id, Some(1));
    assert_eq!(stats.total_samples, 4);
    assert_eq!(stats.streams_written, vec!["/vector".to_string()]);
}

#[test]
fn monotonic_policy_allows_gaps() {
    let mut a = appender(SplitPolicy::Monotonic, RunSplitLevel::PerStream, 65536);
    let k = key("/0", 1);
    for (n, reason) in [
        (0, Some(BoundaryReason::Initial)),
        (5, Some(BoundaryReason::SampleGap)),
        (6, Some(BoundaryReason::SessionChanged)),
        (7, Some(BoundaryReason::SegmentChanged)),
        (8, Some(BoundaryReason::StreamMetadataChanged)),
        (9, Some(BoundaryReason::ColumnDescChanged)),
    ] {
        assert!(a.write_sample(sample(n, reason), k.clone()).is_empty());
    }
    assert_eq!(a.get_run_id(&k), Some(0));
    let (rest, stats) = a.finish();
    let w = writes(rest);
    assert_eq!(w.len(), 1);
    assert_eq!(w[0].group_path, "/0/vector/run_000000");
    assert_eq!(w[0].sample_numbers, vec![0, 5, 6, 7, 8, 9]);
    assert_eq!(stats.total_samples, 6);
}

#[test]
fn continuous_policy_splits_on_any_discontinuity() {
    let mut a = appender(SplitPolicy::Continuous, RunSplitLevel::PerStream, 65536);
    let k = key("/0", 1);
    assert!(a.write_sample(sample(0, Some(BoundaryReason::Initial)), k.clone()).is_empty());
    assert!(a.write_sample(sample(1, Some(BoundaryReason::ColumnDescChanged)), k.clone()).is_empty());
    let mut groups = Vec::new();
    for (n, reason) in [
        (5, BoundaryReason::SampleGap),
        (6, BoundaryReason::SessionChanged),
        (7, BoundaryReason::SegmentChanged),
        (8, BoundaryReason::StreamMetadataChanged),
        (9, BoundaryReason::TimeWentBackward),
    ] {
        for w in writes(a.write_sample(sample(n, Some(reason)), k.clone())) {
            groups.push((w.group_path, w.sample_numbers));
        }
    }
    assert_eq!(
        groups,
        vec![
            ("/0/vector/run_000000".to_string(), vec![0, 1]),
            ("/0/vector/run_000001".to_string(), vec![5]),
            ("/0/vector/run_000002".to_string(), vec![6]),
            ("/0/vector/run_000003".to_string(), vec![7]),
            ("/0/vector/run_000004".to_string(), vec![8]),
        ]
    );
    assert_eq!(a.get_run_id(&k), Some(5));
}

#[test]
fn group_paths_follow_the_split_level() {
    let cases = [
        (RunSplitLevel::Unsplit, "/", "/vector"),
        (RunSplitLevel::Unsplit, "/0/1", "/0/1/vector"),
        (RunSplitLevel::PerStream, "/", "/vector/run_000000"),
        (RunSplitLevel::PerStream, "/0/1", "/0/1/vector/run_000000"),
        (RunSplitLevel::PerDevice, "/", "/run_000000/vector"),
        (RunSplitLevel::PerDevice, "/0/1", "/0/1/run_000000/vector"),
        (RunSplitLevel::Global, "/", "/run_000000/vector"),
        (RunSplitLevel::Global, "/0/1", "/run_000000/0/1/vector"),
    ];
    for (level, r, expected) in cases {
        let a = appender(SplitPolicy::Continuous, level, 10);
        assert_eq!(a.make_group_path("vector", &key(r, 1)), expected);
    }
}

#[test]
fn run_numbers_have_at_least_six_digits() {
    let mut a = appender(SplitPolicy::Continuous, RunSplitLevel::Global, 65536);
    let k = key("/3", 1);
    for n in 0..12 {
        a.write_sample(sample(n, Some(BoundaryReason::SampleGap)), k.clone());
    }
    assert_eq!(a.get_run_id(&k), Some(12));
    assert_eq!(a.make_group_path("vector", &k), "/run_000012/3/vector");
}

#[test]
fn unsplit_level_flushes_without_counting_runs() {
    let mut a = appender(SplitPolicy::Continuous, RunSplitLevel::Unsplit, 65536);
    let k = key("/0", 1);
    a.write_sample(sample(0, Some(BoundaryReason::Initial)), k.clone());
    let w = writes(a.write_sample(sample(5, Some(BoundaryReason::SampleGap)), k.clone()));
    assert_eq!(w.len(), 1);
    assert_eq!(w[0].group_path, "/0/vector");
    assert!(w[0].attributes.is_some());
    assert_eq!(w[0].attributes.as_ref().unwrap().run_id, None);
    assert_eq!(a.get_run_id(&k), None);
    let (rest, _) = a.finish();
    let w = writes(rest);
    assert_eq!(w[0].group_path, "/0/vector");
    // The same group goes on: its attributes were written with the first chunk.
    assert!(w[0].attributes.is_none());
    assert_eq!(w[0].sample_numbers, vec![5]);
}

#[test]
fn per_device_split_flushes_all_streams_of_the_device() {
    let mut a = appender(SplitPolicy::Continuous, RunSplitLevel::PerDevice, 65536);
    a.write_sample(sample_of("vector", 0, None), key("/0", 1));
    a.write_sample(sample_of("accel", 0, None), key("/0", 2));
    a.write_sample(sample_of("vector", 0, None), key("/1", 1));
    let w = writes(a.write_sample(sample_of("accel", 9, Some(BoundaryReason::SampleGap)), key("/0", 2)));
    let groups: Vec<&str> = w.iter().map(|w| w.group_path.as_str()).collect();
    assert_eq!(groups, vec!["/0/run_000000/vector", "/0/run_000000/accel"]);
    assert_eq!(a.get_run_id(&key("/0", 1)), Some(1));
    assert_eq!(a.get_run_id(&key("/0", 2)), Some(1));
    assert_eq!(a.get_run_id(&key("/1", 1)), Some(0));
    let (rest, stats) = a.finish();
    let w = writes(rest);
    let groups: Vec<&str> = w.iter().map(|w| w.group_path.as_str()).collect();
    assert_eq!(groups, vec!["/0/run_000001/accel", "/1/run_000000/vector"]);
    assert!(w[0].attributes.is_some());
    assert_eq!(stats.total_samples, 4);
    assert_eq!(stats.streams_written, vec!["/0/vector", "/0/accel", "/1/vector"]);
}

#[test]
fn global_split_flushes_every_stream() {
    let mut a = appender(SplitPolicy::Continuous, RunSplitLevel::Global, 65536);
    a.write_sample(sample_of("vector", 0, None), key("/0", 1));
    a.write_sample(sample_of("vector", 0, None), key("/1", 1));
    let w = writes(a.write_sample(sample_of("vector", 9, Some(BoundaryReason::SampleGap)), key("/1", 1)));
    let groups: Vec<&str> = w.iter().map(|w| w.group_path.as_str()).collect();
    assert_eq!(groups, vec!["/run_000000/0/vector", "/run_000000/1/vector"]);
    assert_eq!(a.get_run_id(&key("/0", 1)), Some(1));
    let w = writes(a.write_sample(sample_of("vector", 1, None), key("/0", 1)));
    assert!(w.is_empty());
    let (rest, _) = a.finish();
    let w = writes(rest);
    let groups: Vec<&str> = w.iter().map(|w| w.group_path.as_str()).collect();
    assert_eq!(groups, vec!["/run_000001/0/vector", "/run_000001/1/vector"]);
    assert!(w.iter().all(|w| w.attributes.as_ref().unwrap().run_id == Some(1)));
}

#[test]
fn full_batch_is_flushed() {
    let mut a = appender(SplitPolicy::Continuous, RunSplitLevel::Unsplit, 3);
    let k = key("/", 1);
    assert!(a.write_sample(sample(0, None), k.clone()).is_empty());
    assert!(a.write_sample(sample(1, None), k.clone()).is_empty());
    let w = writes(a.write_sample(sample(2, None), k.clone()));
    assert_eq!(w.len(), 1);
    assert_eq!(w[0].sample_numbers, vec![0, 1, 2]);
    assert!(w[0].attributes.is_some());
    assert!(a.write_sample(sample(3, None), k.clone()).is_empty());
    assert!(a.write_sample(sample(4, None), k.clone()).is_empty());
    let w = writes(a.write_sample(sample(5, None), k.clone()));
    assert_eq!(w[0].sample_numbers, vec![3, 4, 5]);
    assert!(w[0].attributes.is_none());
    let (rest, stats) = a.finish();
    assert!(rest.is_empty());
    assert_eq!(stats.total_samples, 6);
}

#[test]
fn batch_carries_times_columns_and_attributes() {
    let mut a = appender(SplitPolicy::Continuous, RunSplitLevel::PerStream, 2);
    let k = key("/0", 1);
    a.write_sample(sample(7, None), k.clone());
    let w = writes(a.write_sample(sample(8, None), k.clone()));
    let w = &w[0];
    assert_eq!(
        w.timestamps,
        vec![
            TimePoint { start_time: 100, steps: 8, decimation: 2, sampling_rate: 1000 },
            TimePoint { start_time: 100, steps: 9, decimation: 2, sampling_rate: 1000 },
        ]
    );
    let attributes = w.attributes.as_ref().unwrap();
    assert_eq!(attributes.sampling_rate, 1000);
    assert_eq!(attributes.decimation, 2);
    assert_eq!(attributes.start_time, 100);
    assert_eq!(attributes.filter_cutoff, 7);
    assert_eq!(attributes.session_id, 42);
    assert_eq!(attributes.run_id, Some(0));
    assert_eq!(attributes.time_ref_epoch, 4);
    assert_eq!(attributes.filter_type, 3);
    assert_eq!(attributes.time_ref_serial, None);
    assert_eq!(w.columns.len(), 2);
    assert_eq!(w.columns[0].name, "x");
    assert_eq!(w.columns[0].units.as_deref(), Some("nT"));
    assert_eq!(w.columns[0].description.as_deref(), Some("field"));
    assert!(matches!(
        &w.columns[0].data,
        ColumnBatch::Float(v) if v == &vec![FloatValue::Single(7), FloatValue::Single(8)]
    ));
    assert_eq!(w.columns[1].name, "count");
    assert_eq!(w.columns[1].units, None);
    assert_eq!(w.columns[1].description, None);
    assert!(matches!(&w.columns[1].data, ColumnBatch::UInt(v) if v == &vec![70, 80]));
}

#[test]
fn time_reference_serial_is_written_when_present() {
    let mut a = appender(SplitPolicy::Continuous, RunSplitLevel::Unsplit, 1);
    let mut s = sample(0, None);
    s.segment.time_ref_serial = "GPS1".to_string();
    let w = writes(a.write_sample(s, key("/", 1)));
    assert_eq!(w[0].attributes.as_ref().unwrap().time_ref_serial.as_deref(), Some("GPS1"));
}

#[test]
fn values_widen_to_the_buffer_of_the_first_description() {
    let mut a = appender(SplitPolicy::Continuous, RunSplitLevel::Unsplit, 4);
    let k = key("/", 1);
    let with = |n: u32, value: ColumnData| {
        let mut s = sample(n, None);
        s.columns = vec![column(0, "x", DataType::Float64, value)];
        s
    };
    a.write_sample(with(0, ColumnData::Float(FloatValue::Double(11))), k.clone());
    a.write_sample(with(1, ColumnData::Int(-5)), k.clone());
    // An unsigned value does not go into a float buffer.
    a.write_sample(with(2, ColumnData::UInt(6)), k.clone());
    let w = writes(a.write_sample(with(3, ColumnData::Float(FloatValue::Single(12))), k.clone()));
    assert_eq!(w[0].sample_numbers, vec![0, 1, 2, 3]);
    assert!(matches!(
        &w[0].columns[0].data,
        ColumnBatch::Float(v) if v == &vec![
            FloatValue::Double(11),
            FloatValue::Whole(-5),
            FloatValue::Single(12),
        ]
    ));
}

#[test]
fn filter_leaves_out_columns_but_not_times() {
    let filter = ColumnFilter::new("**/count").unwrap();
    let mut a = Hdf5Appender::with_options(
        false,
        false,
        Some(filter),
        1,
        SplitPolicy::Continuous,
        RunSplitLevel::Unsplit,
    );
    let w = writes(a.write_sample(sample(3, None), key("/0", 1)));
    assert_eq!(w.len(), 1);
    assert_eq!(w[0].columns.len(), 1);
    assert_eq!(w[0].columns[0].name, "count");
    assert_eq!(w[0].sample_numbers, vec![3]);
    assert_eq!(w[0].timestamps.len(), 1);
}

#[test]
fn batch_without_matching_column_still_writes_numbers_and_times() {
    let filter = ColumnFilter::new("accel").unwrap();
    let mut a = Hdf5Appender::with_options(
        false,
        false,
        Some(filter),
        1,
        SplitPolicy::Continuous,
        RunSplitLevel::Unsplit,
    );
    let w = writes(a.write_sample(sample(7, None), key("/0", 1)));
    assert_eq!(w.len(), 1);
    assert_eq!(w[0].group_path, "/0/vector");
    assert_eq!(w[0].sample_numbers, vec![7]);
    assert_eq!(w[0].timestamps.len(), 1);
    assert!(w[0].columns.is_empty());
    assert!(w[0].attributes.is_some());
    let w = writes(a.write_sample(sample_of("accel", 0, None), key("/0", 2)));
    assert_eq!(w.len(), 1);
    assert_eq!(w[0].columns.len(), 2);
    let (rest, stats) = a.finish();
    assert!(rest.is_empty());
    assert_eq!(stats.total_samples, 2);
    assert_eq!(stats.streams_written, vec!["/0/vector", "/0/accel"]);
}

#[test]
fn sample_without_columns_is_written_and_counted() {
    let mut a = appender(SplitPolicy::Continuous, RunSplitLevel::PerStream, 65536);
    let mut bare = sample(3, None);
    bare.columns.clear();
    assert!(a.write_sample(bare, key("/", 1)).is_empty());
    let (rest, stats) = a.finish();
    let w = writes(rest);
    assert_eq!(w.len(), 1);
    assert_eq!(w[0].group_path, "/vector/run_000000");
    assert_eq!(w[0].sample_numbers, vec![3]);
    assert_eq!(w[0].timestamps.len(), 1);
    assert!(w[0].columns.is_empty());
    assert_eq!(stats.total_samples, 1);
    assert_eq!(stats.streams_written, vec!["/vector"]);
}

#[test]
fn new_run_carries_the_session_of_the_sample_that_begins_it() {
    let with_session = |n: u32, session: u32, reason: Option<BoundaryReason>| {
        let mut s = sample(n, reason);
        s.device.session_id = session;
        s
    };
    let mut a = appender(SplitPolicy::Continuous, RunSplitLevel::PerStream, 65536);
    let k = key("/0", 1);
    a.write_sample(with_session(0, 0xA, Some(BoundaryReason::Initial)), k.clone());
    a.write_sample(with_session(1, 0xA, None), k.clone());
    let first = writes(a.write_sample(
        with_session(0, 0xB, Some(BoundaryReason::SessionChanged)),
        k.clone(),
    ));
    assert_eq!(first.len(), 1);
    assert_eq!(first[0].group_path, "/0/vector/run_000000");
    assert_eq!(first[0].attributes.as_ref().unwrap().session_id, 0xA);
    a.write_sample(with_session(1, 0xB, None), k.clone());
    let (rest, _) = a.finish();
    let second = writes(rest);
    assert_eq!(second[0].group_path, "/0/vector/run_000001");
    assert_eq!(second[0].sample_numbers, vec![0, 1]);
    let attributes = second[0].attributes.as_ref().unwrap();
    assert_eq!(attributes.run_id, Some(1));
    assert_eq!(attributes.session_id, 0xB);
}

#[test]
fn run_keeps_its_session_where_a_session_change_does_not_split() {
    let mut a = appender(SplitPolicy::Monotonic, RunSplitLevel::PerStream, 65536);
    let k = key("/0", 1);
    let mut first = sample(0, Some(BoundaryReason::Initial));
    first.device.session_id = 5;
    let mut second = sample(1, Some(BoundaryReason::SessionChanged));
    second.device.session_id = 6;
    a.write_sample(first, k.clone());
    a.write_sample(second, k.clone());
    let (rest, _) = a.finish();
    let w = writes(rest);
    assert_eq!(w.len(), 1);
    assert_eq!(w[0].sample_numbers, vec![0, 1]);
    assert_eq!(w[0].attributes.as_ref().unwrap().session_id, 5);
}

#[test]
fn statistics_span_the_least_and_greatest_time_written() {
    let at = |n: u32, start_time: u32| {
        let mut s = sample(n, None);
        s.segment.start_time = start_time;
        s
    };
    let mut a = appender(SplitPolicy::Continuous, RunSplitLevel::Unsplit, 65536);
    let (none, empty) = appender(SplitPolicy::Continuous, RunSplitLevel::Unsplit, 1).finish();
    assert!(none.is_empty());
    assert_eq!((empty.total_samples, empty.start_time, empty.end_time), (0, None, None));
    // The times within a batch do not come in order: the middle one is the least,
    // the second the greatest.
    a.write_sample(at(0, 50), key("/", 1));
    a.write_sample(at(1, 90), key("/", 1));
    a.write_sample(at(2, 10), key("/", 1));
    a.write_sample(at(3, 60), key("/", 1));
    a.write_sample(at(0, 70), key("/", 2));
    let (_, stats) = a.finish();
    // sample() counts in steps of 2/1000 s from the start time.
    assert_eq!(
        stats.start_time,
        Some(TimePoint { start_time: 10, steps: 3, decimation: 2, sampling_rate: 1000 })
    );
    assert_eq!(
        stats.end_time,
        Some(TimePoint { start_time: 90, steps: 2, decimation: 2, sampling_rate: 1000 })
    );
    assert_eq!(stats.total_samples, 5);
}

#[test]
fn debug_reports_each_path_once() {
    let filter = ColumnFilter::new("**/x").unwrap();
    let mut a = Hdf5Appender::with_options(
        false,
        true,
        Some(filter),
        1,
        SplitPolicy::Continuous,
        RunSplitLevel::Unsplit,
    );
    assert!(a.debug());
    let actions = a.write_sample(sample(0, None), key("/0", 1));
    assert_eq!(actions.len(), 3);
    assert!(matches!(&actions[0], ExportAction::Trace { path, matched: true } if path == "/0/vector/x"));
    assert!(matches!(&actions[1], ExportAction::Trace { path, matched: false } if path == "/0/vector/count"));
    assert!(matches!(&actions[2], ExportAction::Write(w) if w.columns.len() == 1));
    let actions = a.write_sample(sample(1, None), key("/0", 1));
    assert_eq!(actions.len(), 1);
    assert!(matches!(&actions[0], ExportAction::Write(_)));
}

#[test]
fn constructors_set_the_defaults() {
    let mut a = Hdf5Appender::new(true, false, None, 1);
    assert!(a.compress());
    assert!(!a.debug());
    let k = key("/0", 1);
    // Continuous policy: a gap flushes. No run splitting: the path has no run.
    let w = writes(a.write_sample(sample(0, Some(BoundaryReason::SampleGap)), k.clone()));
    assert_eq!(w[0].group_path, "/0/vector");
    let mut b = Hdf5Appender::with_policy(false, false, None, 10, SplitPolicy::Monotonic);
    b.write_sample(sample(0, None), k.clone());
    assert!(b.write_sample(sample(5, Some(BoundaryReason::SampleGap)), k.clone()).is_empty());
    assert_eq!(writes(b.write_sample(sample(1, Some(BoundaryReason::TimeWentBackward)), k)).len(), 1);
    assert_eq!(SplitPolicy::default(), SplitPolicy::Continuous);
    assert_eq!(RunSplitLevel::default(), RunSplitLevel::Unsplit);
}

#[test]
fn split_levels_convert_from_command_line_choices() {
    assert_eq!(RunSplitLevel::from(SplitLevel::Unsplit), RunSplitLevel::Unsplit);
    assert_eq!(RunSplitLevel::from(SplitLevel::Stream), RunSplitLevel::PerStream);
    assert_eq!(RunSplitLevel::from(SplitLevel::Device), RunSplitLevel::PerDevice);
    assert_eq!(RunSplitLevel::from(SplitLevel::Global), RunSplitLevel::Global);
    assert_eq!(SplitLevel::default(), SplitLevel::Unsplit);
}

#[test]
fn replaying_the_same_samples_gives_the_same_actions() {
    let run = || {
        let mut a = appender(SplitPolicy::Continuous, RunSplitLevel::PerDevice, 2);
        let mut all = Vec::new();
        for n in 0..7 {
            let reason = if n == 4 { Some(BoundaryReason::SampleGap) } else { None };
            all.extend(a.write_sample(sample(n, reason), key("/0", 1)));
            all.extend(a.write_sample(sample_of("accel", n, None), key("/0", 2)));
        }
        let (rest, stats) = a.finish();
        all.extend(rest);
        format!("{:?} {:?}", all, stats)
    };
    assert_eq!(run(), run());
}

#[test]
fn group_ancestors_lists_the_groups_to_make() {
    assert_eq!(group_ancestors("/0/1/vector/run_000000"), vec!["/0", "/0/1", "/0/1/vector", "/0/1/vector/run_000000"]);
    assert_eq!(group_ancestors("/vector"), vec!["/vector"]);
    assert_eq!(group_ancestors("a//b/"), vec!["/a", "/a/b"]);
    assert!(group_ancestors("").is_empty());
    assert!(group_ancestors("///").is_empty());
}

#[test]
fn dataset_path_joins_group_and_name() {
    assert_eq!(dataset_path("/0/vector", "time"), "/0/vector/time");
    assert_eq!(dataset_path("", "x"), "/x");
}

#[test]
fn every_sample_is_written_once_in_order() {
    for level in [
        RunSplitLevel::Unsplit,
        RunSplitLevel::PerStream,
        RunSplitLevel::PerDevice,
        RunSplitLevel::Global,
    ] {
        for policy in [SplitPolicy::Continuous, SplitPolicy::Monotonic] {
            let mut a = appender(policy, level, 3);
            let keys = [key("/0", 1), key("/0", 2), key("/1", 1)];
            let mut taken: Vec<Vec<u32>> = vec![vec![], vec![], vec![]];
            let mut written: Vec<Vec<u32>> = vec![vec![], vec![], vec![]];
            let mut note = |actions: Vec<ExportAction>| {
                for w in writes(actions) {
                    let which = keys.iter().position(|k| k.equals(&w.key)).unwrap();
                    assert_eq!(w.sample_numbers.len(), w.timestamps.len());
                    written[which].extend(w.sample_numbers);
                }
            };
            for step in 0u32..40 {
                let which = (step * 7 % 3) as usize;
                let reason = match step % 5 {
                    0 => Some(BoundaryReason::SampleGap),
                    3 => Some(BoundaryReason::TimeWentBackward),
                    _ => None,
                };
                let n = step * 3 + 1;
                taken[which].push(n);
                note(a.write_sample(sample(n, reason), keys[which].clone()));
            }
            let (rest, stats) = a.finish();
            note(rest);
            assert_eq!(written, taken);
            assert_eq!(stats.total_samples, 40);
        }
    }
}

#[test]
fn writes_name_their_stream() {
    let mut a = appender(SplitPolicy::Continuous, RunSplitLevel::Unsplit, 1);
    let w = writes(a.write_sample(sample(0, None), key("/0/3", 9)));
    assert_eq!(w[0].key.route.hops(), vec![0, 3]);
    assert_eq!(w[0].key.stream_id, 9);
}
