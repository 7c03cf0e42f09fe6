use twinleaf::meta::{
    ColumnMetadata, DataType, DeviceMetadata, SegmentMetadata, StreamData, StreamMetadata,
};
use twinleaf::packet::Packet;
use twinleaf::parser::DeviceDataParser;
use twinleaf::payload::Payload;
use twinleaf::route::DeviceRoute;
use twinleaf::sample::{
    is_time_before, Boundary, BoundaryReason, ColumnData, FloatValue, Sample, TimePoint,
};

fn device(session_id: u32) -> Payload {
    Payload::DeviceMetadata(DeviceMetadata {
        serial: "SN1".to_string(),
        firmware: "1.0".to_string(),
        session_id,
        n_streams: 1,
    })
}

fn stream(stream_id: u8, name: &str, n_columns: u8, sample_size: u16) -> Payload {
    Payload::StreamMetadata(StreamMetadata {
        stream_id,
        name: name.to_string(),
        sample_size,
        n_columns,
        total_samples: 0,
    })
}

fn segment(stream_id: u8, rate: u32, decimation: u32, start: u32, offset: u32) -> Payload {
    Payload::SegmentMetadata(SegmentMetadata {
        stream_id,
        sampling_rate: rate,
        decimation,
        filter_cutoff: 0,
        filter_type: 0,
        time_ref_epoch: 0,
        time_ref_serial: String::new(),
        start_time: start,
        sample_n_offset: offset,
    })
}

fn column(stream_id: u8, index: u8, name: &str, data_type: DataType) -> Payload {
    Payload::ColumnMetadata(ColumnMetadata {
        stream_id,
        index,
        name: name.to_string(),
        units: String::new(),
        description: String::new(),
        data_type,
    })
}

fn data(stream_id: u8, first_sample_n: u32, bytes: Vec<u8>) -> Payload {
    Payload::StreamData(StreamData { stream_id, first_sample_n, data: bytes })
}

fn singles(values: &[f32]) -> Vec<u8> {
    values.iter().flat_map(|v| v.to_le_bytes()).collect()
}

fn feed(parser: &mut DeviceDataParser, payloads: Vec<Payload>) -> Vec<Sample> {
    let mut out = Vec::new();
    for payload in payloads {
        let packet = Packet { payload, routing: DeviceRoute::root(), ttl: 0 };
        out.extend(parser.process_packet(&packet));
    }
    out
}

fn reasons(samples: &[Sample]) -> Vec<Option<BoundaryReason>> {
    samples.iter().map(|s| s.boundary.map(|b| b.reason)).collect()
}

fn single(v: f32) -> ColumnData {
    ColumnData::Float(FloatValue::Single(v.to_bits()))
}

fn hot_parser() -> DeviceDataParser {
    let mut parser = DeviceDataParser::new(false);
    let none = feed(
        &mut parser,
        vec![
            device(0xA),
            stream(1, "vector", 1, 4),
            segment(1, 1000, 1, 0, 0),
            column(1, 0, "x", DataType::Float32),
        ],
    );
    assert!(none.is_empty());
    parser
}

#[test]
fn first_samples_carry_initial_boundary() {
    let mut parser = hot_parser();
    let samples = feed(&mut parser, vec![data(1, 0, singles(&[1.0, 2.0]))]);
    assert_eq!(samples.len(), 2);
    assert_eq!(samples[0].boundary, Some(Boundary { reason: BoundaryReason::Initial }));
    assert_eq!(samples[1].boundary, None);
    assert_eq!(samples[0].n, 0);
    assert_eq!(samples[1].n, 1);
    assert_eq!(samples[0].columns.len(), 1);
    assert_eq!(samples[0].columns[0].value, single(1.0));
    assert_eq!(samples[1].columns[0].value, single(2.0));
    assert_eq!(samples[0].columns[0].desc.name, "x");
    assert_eq!(samples[0].stream.name, "vector");
    assert_eq!(samples[0].device.session_id, 0xA);
    assert_eq!(samples[0].segment.sampling_rate, 1000);
    assert_eq!(samples[0].source.first_sample_n, 0);
    assert_eq!(samples[1].source.data.len(), 8);
}

#[test]
fn session_change_marks_next_sample() {
    let mut parser = hot_parser();
    feed(&mut parser, vec![data(1, 0, singles(&[1.0, 2.0]))]);
    let samples = feed(&mut parser, vec![device(0xB), data(1, 2, singles(&[3.0]))]);
    assert_eq!(samples.len(), 1);
    assert_eq!(samples[0].boundary, Some(Boundary { reason: BoundaryReason::SessionChanged }));
    assert_eq!(samples[0].n, 2);
    assert_eq!(samples[0].columns[0].value, single(3.0));
    assert_eq!(samples[0].device.session_id, 0xB);
}

#[test]
fn session_change_is_passed_over_when_ignored() {
    let mut parser = DeviceDataParser::new(true);
    feed(
        &mut parser,
        vec![
            device(0xA),
            stream(1, "vector", 1, 4),
            segment(1, 1000, 1, 0, 0),
            column(1, 0, "x", DataType::Float32),
            data(1, 0, singles(&[1.0, 2.0])),
        ],
    );
    let samples = feed(&mut parser, vec![device(0xB), data(1, 2, singles(&[3.0]))]);
    assert_eq!(reasons(&samples), vec![None]);
    assert_eq!(samples[0].device.session_id, 0xB);
}

#[test]
fn data_before_metadata_is_dropped() {
    let complete = vec![
        device(1),
        stream(1, "s", 2, 3),
        segment(1, 10, 1, 0, 0),
        column(1, 0, "a", DataType::UInt8),
        column(1, 1, "b", DataType::UInt16),
    ];
    // Leave out each piece of metadata in turn.
    for missing in 0..complete.len() {
        let mut parser = DeviceDataParser::new(false);
        let mut payloads: Vec<Payload> = Vec::new();
        for (i, p) in complete.iter().enumerate() {
            if i != missing {
                payloads.push(p.clone());
            }
        }
        payloads.push(data(1, 0, vec![1, 2, 3]));
        assert!(feed(&mut parser, payloads).is_empty(), "without piece {}", missing);
        if missing == 1 {
            // The columns came before the stream said how many it has: they are sent again.
            let again = vec![complete[1].clone(), complete[3].clone(), complete[4].clone()];
            assert!(feed(&mut parser, again).is_empty());
        } else {
            assert!(feed(&mut parser, vec![complete[missing].clone()]).is_empty());
        }
        let samples = feed(&mut parser, vec![data(1, 5, vec![1, 2, 3])]);
        assert_eq!(reasons(&samples), vec![Some(BoundaryReason::Initial)], "after piece {}", missing);
        assert_eq!(samples[0].n, 5);
    }
}

#[test]
fn columns_are_read_in_declared_order_and_widened() {
    let mut parser = DeviceDataParser::new(false);
    feed(
        &mut parser,
        vec![
            device(1),
            stream(3, "mixed", 10, 42),
            segment(3, 100, 1, 0, 0),
            column(3, 0, "u8", DataType::UInt8),
            column(3, 1, "i8", DataType::Int8),
            column(3, 2, "u16", DataType::UInt16),
            column(3, 3, "i16", DataType::Int16),
            column(3, 4, "u32", DataType::UInt32),
            column(3, 5, "i32", DataType::Int32),
            column(3, 6, "u64", DataType::UInt64),
            column(3, 7, "i64", DataType::Int64),
            column(3, 8, "f32", DataType::Float32),
            column(3, 9, "f64", DataType::Float64),
        ],
    );
    let mut bytes: Vec<u8> = Vec::new();
    bytes.push(200);
    bytes.extend_from_slice(&(-3i8).to_le_bytes());
    bytes.extend_from_slice(&60000u16.to_le_bytes());
    bytes.extend_from_slice(&(-12345i16).to_le_bytes());
    bytes.extend_from_slice(&4000000000u32.to_le_bytes());
    bytes.extend_from_slice(&(-2000000000i32).to_le_bytes());
    bytes.extend_from_slice(&18000000000000000000u64.to_le_bytes());
    bytes.extend_from_slice(&i64::MIN.to_le_bytes());
    bytes.extend_from_slice(&1.5f32.to_le_bytes());
    bytes.extend_from_slice(&(-2.25f64).to_le_bytes());
    assert_eq!(bytes.len(), 42);
    let samples = feed(&mut parser, vec![data(3, 9, bytes)]);
    assert_eq!(samples.len(), 1);
    let values: Vec<ColumnData> = samples[0].columns.iter().map(|c| c.value).collect();
    assert_eq!(
        values,
        vec![
            ColumnData::UInt(200),
            ColumnData::Int(-3),
            ColumnData::UInt(60000),
            ColumnData::Int(-12345),
            ColumnData::UInt(4000000000),
            ColumnData::Int(-2000000000),
            ColumnData::UInt(18000000000000000000),
            ColumnData::Int(i64::MIN),
            ColumnData::Float(FloatValue::Single(1.5f32.to_bits())),
            ColumnData::Float(FloatValue::Double((-2.25f64).to_bits())),
        ]
    );
    let names: Vec<&str> = samples[0].columns.iter().map(|c| c.desc.name.as_str()).collect();
    assert_eq!(names, vec!["u8", "i8", "u16", "i16", "u32", "i32", "u64", "i64", "f32", "f64"]);
}

#[test]
fn signed_extremes_are_read() {
    let mut parser = DeviceDataParser::new(false);
    feed(
        &mut parser,
        vec![
            device(1),
            stream(1, "s", 3, 7),
            segment(1, 1, 1, 0, 0),
            column(1, 0, "a", DataType::Int8),
            column(1, 1, "b", DataType::Int16),
            column(1, 2, "c", DataType::Int32),
        ],
    );
    let samples = feed(
        &mut parser,
        vec![data(
            1,
            0,
            vec![0x80, 0x00, 0x80, 0x00, 0x00, 0x00, 0x80, 0x7F, 0xFF, 0x7F, 0xFF, 0xFF, 0xFF, 0x7F],
        )],
    );
    assert_eq!(samples.len(), 2);
    let values = |s: &Sample| s.columns.iter().map(|c| c.value).collect::<Vec<_>>();
    assert_eq!(
        values(&samples[0]),
        vec![ColumnData::Int(-128), ColumnData::Int(-32768), ColumnData::Int(-2147483648)]
    );
    assert_eq!(
        values(&samples[1]),
        vec![ColumnData::Int(127), ColumnData::Int(32767), ColumnData::Int(2147483647)]
    );
}

#[test]
fn trailing_bytes_short_of_a_sample_are_left_out() {
    let mut parser = hot_parser();
    let samples = feed(&mut parser, vec![data(1, 0, vec![0; 11])]);
    assert_eq!(samples.len(), 2);
    let none = feed(&mut parser, vec![data(1, 2, vec![0; 3])]);
    assert!(none.is_empty());
    // A packet without a whole sample changes nothing.
    let samples = feed(&mut parser, vec![data(1, 2, vec![0; 4])]);
    assert_eq!(reasons(&samples), vec![None]);
}

#[test]
fn gap_in_sample_numbers_is_marked() {
    let mut parser = hot_parser();
    feed(&mut parser, vec![data(1, 0, singles(&[1.0, 2.0]))]);
    let samples = feed(&mut parser, vec![data(1, 5, singles(&[3.0, 4.0]))]);
    assert_eq!(reasons(&samples), vec![Some(BoundaryReason::SampleGap), None]);
    assert_eq!(samples[0].n, 5);
    assert_eq!(samples[1].n, 6);
    let samples = feed(&mut parser, vec![data(1, 7, singles(&[5.0]))]);
    assert_eq!(reasons(&samples), vec![None]);
}

#[test]
fn repeated_samples_go_backward_in_time() {
    let mut parser = hot_parser();
    feed(&mut parser, vec![data(1, 0, singles(&[1.0, 2.0, 3.0]))]);
    let samples = feed(&mut parser, vec![data(1, 1, singles(&[2.0]))]);
    assert_eq!(reasons(&samples), vec![Some(BoundaryReason::TimeWentBackward)]);
}

#[test]
fn segment_change_is_marked() {
    let mut parser = hot_parser();
    feed(&mut parser, vec![data(1, 0, singles(&[1.0]))]);
    let samples = feed(&mut parser, vec![segment(1, 500, 1, 0, 0), data(1, 1, singles(&[2.0]))]);
    assert_eq!(reasons(&samples), vec![Some(BoundaryReason::SegmentChanged)]);
    assert_eq!(samples[0].segment.sampling_rate, 500);
    // The same segment again changes nothing.
    let samples = feed(&mut parser, vec![segment(1, 500, 1, 0, 0), data(1, 2, singles(&[2.0]))]);
    assert_eq!(reasons(&samples), vec![None]);
}

#[test]
fn earlier_start_time_is_time_going_backward() {
    let mut parser = DeviceDataParser::new(false);
    feed(
        &mut parser,
        vec![
            device(1),
            stream(1, "vector", 1, 4),
            segment(1, 1000, 1, 100, 0),
            column(1, 0, "x", DataType::Float32),
            data(1, 0, singles(&[1.0, 2.0])),
        ],
    );
    let samples = feed(&mut parser, vec![segment(1, 1000, 1, 50, 0), data(1, 2, singles(&[3.0]))]);
    assert_eq!(reasons(&samples), vec![Some(BoundaryReason::TimeWentBackward)]);
    // With a session change on top, time going backward is still what is reported.
    let samples = feed(
        &mut parser,
        vec![device(2), segment(1, 1000, 1, 10, 0), data(1, 0, singles(&[3.0]))],
    );
    assert_eq!(reasons(&samples), vec![Some(BoundaryReason::TimeWentBackward)]);
}

#[test]
fn column_description_change_is_marked() {
    let mut parser = hot_parser();
    feed(&mut parser, vec![data(1, 0, singles(&[1.0]))]);
    let renamed = Payload::ColumnMetadata(ColumnMetadata {
        stream_id: 1,
        index: 0,
        name: "x".to_string(),
        units: "nT".to_string(),
        description: String::new(),
        data_type: DataType::Float32,
    });
    let samples = feed(&mut parser, vec![renamed, data(1, 1, singles(&[2.0]))]);
    assert_eq!(reasons(&samples), vec![Some(BoundaryReason::ColumnDescChanged)]);
    assert_eq!(samples[0].columns[0].desc.units, "nT");
    assert!(samples[0].boundary.unwrap().is_continuous());
}

#[test]
fn stream_structure_change_drops_columns() {
    let mut parser = hot_parser();
    feed(&mut parser, vec![data(1, 0, singles(&[1.0]))]);
    let none = feed(&mut parser, vec![stream(1, "vector", 2, 8), data(1, 1, vec![0; 8])]);
    assert!(none.is_empty());
    let none = feed(
        &mut parser,
        vec![column(1, 0, "x", DataType::Float32), data(1, 1, vec![0; 8])],
    );
    assert!(none.is_empty());
    let samples = feed(
        &mut parser,
        vec![column(1, 1, "y", DataType::Float32), data(1, 1, vec![0; 8])],
    );
    assert_eq!(reasons(&samples), vec![Some(BoundaryReason::StreamMetadataChanged)]);
    assert_eq!(samples[0].columns.len(), 2);
    // A description of the same structure keeps the columns.
    let mut same = stream(1, "vector", 2, 8);
    if let Payload::StreamMetadata(m) = &mut same {
        m.total_samples = 99;
    }
    let samples = feed(&mut parser, vec![same, data(1, 2, vec![0; 8])]);
    assert_eq!(reasons(&samples), vec![None]);
    assert_eq!(samples[0].stream.total_samples, 99);
}

#[test]
fn column_beyond_declared_count_is_passed_over() {
    let mut parser = hot_parser();
    let samples = feed(
        &mut parser,
        vec![column(1, 1, "y", DataType::Float32), data(1, 0, singles(&[1.0]))],
    );
    assert_eq!(samples.len(), 1);
    assert_eq!(samples[0].columns.len(), 1);
}

#[test]
fn columns_wider_than_a_sample_keep_the_stream_cold() {
    let mut parser = DeviceDataParser::new(false);
    let samples = feed(
        &mut parser,
        vec![
            device(1),
            stream(1, "s", 1, 2),
            segment(1, 1, 1, 0, 0),
            column(1, 0, "x", DataType::Float32),
            data(1, 0, vec![0; 8]),
        ],
    );
    assert!(samples.is_empty());
}

#[test]
fn streams_are_kept_apart() {
    let mut parser = hot_parser();
    feed(
        &mut parser,
        vec![stream(2, "accel", 1, 1), segment(2, 10, 1, 0, 0), column(2, 0, "a", DataType::UInt8)],
    );
    let samples = feed(
        &mut parser,
        vec![data(1, 0, singles(&[1.0])), data(2, 0, vec![9, 8]), data(1, 1, singles(&[2.0]))],
    );
    let names: Vec<&str> = samples.iter().map(|s| s.stream.name.as_str()).collect();
    assert_eq!(names, vec!["vector", "accel", "accel", "vector"]);
    assert_eq!(
        reasons(&samples),
        vec![Some(BoundaryReason::Initial), Some(BoundaryReason::Initial), None, None]
    );
}

#[test]
fn same_packets_give_same_samples() {
    let run = || {
        let mut parser = DeviceDataParser::new(false);
        let samples = feed(
            &mut parser,
            vec![
                device(1),
                stream(1, "vector", 1, 4),
                segment(1, 1000, 1, 0, 0),
                column(1, 0, "x", DataType::Float32),
                data(1, 0, singles(&[1.0, 2.0])),
                device(2),
                data(1, 2, singles(&[3.0])),
                segment(1, 1000, 2, 0, 0),
                data(1, 9, singles(&[4.0, 5.0])),
            ],
        );
        format!("{:?}", samples)
    };
    assert_eq!(run(), run());
}

#[test]
fn a_run_of_payloads_gives_what_its_packets_give_one_by_one() {
    let run = || {
        vec![
            device(1),
            stream(1, "vector", 1, 4),
            segment(1, 1000, 1, 0, 0),
            column(1, 0, "x", DataType::Float32),
            data(1, 0, singles(&[1.0, 2.0])),
            device(2),
            data(1, 2, singles(&[3.0])),
            data(1, 7, singles(&[4.0])),
        ]
    };
    let mut at_once = DeviceDataParser::new(false);
    let together = at_once.process_all(&run());
    let mut in_steps = DeviceDataParser::new(false);
    let apart = feed(&mut in_steps, run());
    assert_eq!(together.len(), 4);
    assert_eq!(format!("{:?}", together), format!("{:?}", apart));
    assert_eq!(
        reasons(&together),
        vec![
            Some(BoundaryReason::Initial),
            None,
            Some(BoundaryReason::SessionChanged),
            Some(BoundaryReason::SampleGap),
        ]
    );
    // Both parsers go on alike.
    let more = at_once.process_all(&vec![data(1, 8, singles(&[5.0]))]);
    let same = feed(&mut in_steps, vec![data(1, 8, singles(&[5.0]))]);
    assert_eq!(format!("{:?}", more), format!("{:?}", same));
    assert_eq!(reasons(&more), vec![None]);
    assert!(at_once.process_all(&vec![]).is_empty());
}

#[test]
fn other_packets_give_nothing() {
    let mut parser = hot_parser();
    assert!(feed(&mut parser, vec![Payload::Heartbeat(vec![1]), Payload::LogMessage(vec![])]).is_empty());
    let samples = feed(&mut parser, vec![data(1, 0, singles(&[1.0]))]);
    assert_eq!(reasons(&samples), vec![Some(BoundaryReason::Initial)]);
}

#[test]
fn sample_numbers_start_over_after_the_largest() {
    let mut parser = hot_parser();
    let samples = feed(&mut parser, vec![data(1, u32::MAX, singles(&[1.0, 2.0]))]);
    assert_eq!(samples[0].n, u32::MAX);
    assert_eq!(samples[1].n, 0);
    // The number after zero follows on, and the last sample ended before this one does.
    let samples = feed(&mut parser, vec![data(1, 1, singles(&[3.0]))]);
    assert_eq!(samples[0].boundary, None);
}

#[test]
fn timestamp_end_counts_from_the_offset() {
    let mut parser = DeviceDataParser::new(false);
    let samples = feed(
        &mut parser,
        vec![
            device(1),
            stream(1, "vector", 1, 4),
            segment(1, 1000, 4, 50, 10),
            column(1, 0, "x", DataType::Float32),
            data(1, 12, singles(&[1.0])),
        ],
    );
    assert_eq!(
        samples[0].timestamp_end(),
        TimePoint { start_time: 50, steps: 3, decimation: 4, sampling_rate: 1000 }
    );
    let mut early = samples[0].clone();
    early.n = 3;
    assert_eq!(early.timestamp_end().steps, -6);
}

#[test]
fn times_compare_exactly() {
    let t = |start_time, steps, decimation, sampling_rate| TimePoint {
        start_time,
        steps,
        decimation,
        sampling_rate,
    };
    assert!(is_time_before(t(0, 1, 1, 1000), t(0, 2, 1, 1000)));
    assert!(!is_time_before(t(0, 2, 1, 1000), t(0, 2, 1, 1000)));
    assert!(!is_time_before(t(0, 3, 1, 1000), t(0, 2, 1, 1000)));
    // One third of a second lies before 334 thousandths.
    assert!(is_time_before(t(0, 1, 1, 3), t(0, 334, 1, 1000)));
    assert!(!is_time_before(t(0, 1, 1, 3), t(0, 333, 1, 1000)));
    assert!(is_time_before(t(5, -1, 1, 10), t(5, 0, 1, 10)));
    assert!(is_time_before(t(4, 25, 1, 10), t(7, -4, 1, 10)));
    // A rate of zero has no time.
    assert!(!is_time_before(t(0, 1, 1, 0), t(9, 1, 1, 1)));
    assert!(!is_time_before(t(0, 1, 1, 1), t(9, 1, 1, 0)));
    // The extremes fit.
    assert!(is_time_before(
        t(0, i64::MIN, u32::MAX, u32::MAX),
        t(u32::MAX, i64::MAX, u32::MAX, u32::MAX)
    ));
}
