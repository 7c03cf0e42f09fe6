use twinleaf::cli::TioOpts;
use twinleaf::meta::{
    ColumnMetadata, DataType, DeviceDescription, DeviceMetadata, SegmentMetadata, StreamData,
    StreamDescription, StreamMetadata,
};
use twinleaf::packet::Packet;
use twinleaf::parser::TreeParser;
use twinleaf::payload::Payload;
use twinleaf::route::DeviceRoute;
use twinleaf::sample::{
    Boundary, BoundaryReason, Column, ColumnData, FloatValue, Sample, TimePoint,
};
use twinleaf::tool::{
    classify_route, csv_fields, csv_header, csv_ignores_session, csv_output_path, dump_warning,
    default_log_path, hdf_output_name, ignores_session, in_subtree, log_file_name, log_packets,
    metadata_packets, port_depth, route_matches, sample_lines, shows_route, CsvField, DeeperRoutes, RouteClass,
    SampleLine, StreamSelector,
};

fn route(s: &str) -> DeviceRoute {
    DeviceRoute::from_str(s).unwrap()
}

fn column_meta(index: u8, name: &str) -> ColumnMetadata {
    ColumnMetadata {
        stream_id: 1,
        index,
        name: name.to_string(),
        units: String::new(),
        description: String::new(),
        data_type: DataType::Int32,
    }
}

fn sample(n: u32, first_n: u32, boundary: Option<BoundaryReason>) -> Sample {
    Sample {
        n,
        device: DeviceMetadata {
            serial: "S".to_string(),
            firmware: "F".to_string(),
            session_id: 1,
            n_streams: 1,
        },
        stream: StreamMetadata {
            stream_id: 1,
            name: "vector".to_string(),
            sample_size: 8,
            n_columns: 2,
            total_samples: 0,
        },
        segment: SegmentMetadata {
            stream_id: 1,
            sampling_rate: 1000,
            decimation: 1,
            filter_cutoff: 0,
            filter_type: 0,
            time_ref_epoch: 0,
            time_ref_serial: String::new(),
            start_time: 0,
            sample_n_offset: 0,
        },
        columns: vec![
            Column { desc: column_meta(0, "x"), value: ColumnData::Int(-5) },
            Column { desc: column_meta(1, "y"), value: ColumnData::Float(FloatValue::Single(9)) },
        ],
        source: StreamData { stream_id: 1, first_sample_n: first_n, data: vec![1, 2, 3] },
        boundary: boundary.map(|reason| Boundary { reason }),
    }
}

#[test]
fn parse_route_falls_back_to_root() {
    let opts = |p: &str| TioOpts { root: "tcp://localhost".to_string(), route_path: p.to_string() };
    assert_eq!(opts("/0/1").parse_route().hops(), vec![0, 1]);
    assert_eq!(opts("/").parse_route().hops(), Vec::<u8>::new());
    assert_eq!(opts("nonsense").parse_route().hops(), Vec::<u8>::new());
    assert_eq!(opts("/0/1/2/3/4/5/6/7/8").parse_route().hops(), Vec::<u8>::new());
}

#[test]
fn routes_match_by_subtree_and_depth() {
    let target = route("/0");
    assert!(route_matches(&target, &route("/0"), None));
    assert!(route_matches(&target, &route("/0/1/2"), None));
    assert!(!route_matches(&target, &route("/1"), None));
    assert!(!route_matches(&target, &route("/"), None));
    assert!(route_matches(&target, &route("/0"), Some(0)));
    assert!(!route_matches(&target, &route("/0/1"), Some(0)));
    assert!(route_matches(&target, &route("/0/1"), Some(1)));
    assert!(!route_matches(&target, &route("/0/1/2"), Some(1)));
    assert!(in_subtree(&target, &route("/0/1/2")));
    assert!(!in_subtree(&target, &route("/1/0")));
    assert_eq!(classify_route(&target, &route("/0"), Some(0)), RouteClass::Shown);
    assert_eq!(classify_route(&target, &route("/0/3"), Some(0)), RouteClass::Deeper);
    assert_eq!(classify_route(&target, &route("/3"), Some(0)), RouteClass::Outside);
}

#[test]
fn depth_defaults() {
    assert_eq!(port_depth(None), 8);
    assert_eq!(port_depth(Some(3)), 3);
    assert!(shows_route(None));
    assert!(shows_route(Some(1)));
    assert!(!shows_route(Some(0)));
}

#[test]
fn sample_lines_follow_the_flags() {
    let plain = sample(1, 0, None);
    assert_eq!(sample_lines(&plain, true, true), vec![SampleLine::Data]);
    assert_eq!(sample_lines(&plain, true, false), vec![]);
    let first = sample(0, 0, Some(BoundaryReason::Initial));
    assert_eq!(
        sample_lines(&first, true, true),
        vec![SampleLine::Boundary(BoundaryReason::Initial), SampleLine::Segment, SampleLine::Data]
    );
    assert_eq!(sample_lines(&first, false, true), vec![SampleLine::Data]);
    let gap = sample(9, 9, Some(BoundaryReason::SampleGap));
    assert_eq!(
        sample_lines(&gap, true, false),
        vec![SampleLine::Boundary(BoundaryReason::SampleGap), SampleLine::Device, SampleLine::Stream, SampleLine::Column(0), SampleLine::Column(1), SampleLine::Segment]
    );
    assert_eq!(sample_lines(&gap, false, false), vec![]);
}

#[test]
fn log_writes_metadata_on_boundaries_and_data_once() {
    let kinds = |packets: &[Packet]| -> Vec<&'static str> {
        packets
            .iter()
            .map(|p| match p.payload {
                Payload::DeviceMetadata(_) => "device",
                Payload::StreamMetadata(_) => "stream",
                Payload::SegmentMetadata(_) => "segment",
                Payload::ColumnMetadata(_) => "column",
                Payload::StreamData(_) => "data",
                _ => "other",
            })
            .collect()
    };
    let r = route("/0/1");
    let first = log_packets(&sample(4, 4, Some(BoundaryReason::Initial)), &r);
    assert_eq!(kinds(&first), vec!["device", "stream", "segment", "column", "column", "data"]);
    assert!(first.iter().all(|p| p.routing.hops() == vec![0, 1] && p.ttl == 0));
    assert!(matches!(&first[3].payload, Payload::ColumnMetadata(c) if c.name == "x"));
    assert!(matches!(&first[4].payload, Payload::ColumnMetadata(c) if c.name == "y"));
    assert!(matches!(&first[5].payload, Payload::StreamData(d) if d.first_sample_n == 4 && d.data == vec![1, 2, 3]));
    // A later sample of the same packet adds nothing.
    assert!(log_packets(&sample(5, 4, None), &r).is_empty());
    assert_eq!(kinds(&log_packets(&sample(6, 6, None), &r)), vec!["data"]);
    assert_eq!(
        kinds(&log_packets(&sample(7, 6, Some(BoundaryReason::SegmentChanged)), &r)),
        vec!["device", "stream", "segment", "column", "column"]
    );
}

#[test]
fn metadata_packets_list_device_then_streams() {
    let s = sample(0, 0, None);
    let meta = DeviceDescription {
        device: s.device.clone(),
        streams: vec![
            StreamDescription {
                stream: s.stream.clone(),
                segment: s.segment.clone(),
                columns: vec![column_meta(0, "x"), column_meta(1, "y")],
            },
            StreamDescription {
                stream: StreamMetadata { stream_id: 2, name: "accel".to_string(), ..s.stream.clone() },
                segment: s.segment.clone(),
                columns: vec![],
            },
        ],
    };
    let packets = metadata_packets(&meta);
    assert_eq!(packets.len(), 7);
    assert!(packets.iter().all(|p| p.routing.is_root() && p.ttl == 0));
    assert!(matches!(&packets[0].payload, Payload::DeviceMetadata(_)));
    assert!(matches!(&packets[1].payload, Payload::StreamMetadata(m) if m.name == "vector"));
    assert!(matches!(&packets[2].payload, Payload::SegmentMetadata(_)));
    assert!(matches!(&packets[3].payload, Payload::ColumnMetadata(c) if c.name == "x"));
    assert!(matches!(&packets[4].payload, Payload::ColumnMetadata(c) if c.name == "y"));
    assert!(matches!(&packets[5].payload, Payload::StreamMetadata(m) if m.name == "accel"));
    assert!(matches!(&packets[6].payload, Payload::SegmentMetadata(_)));
}

#[test]
fn stream_selector_goes_by_id_or_name() {
    let s = sample(0, 0, None);
    assert!(StreamSelector::new("1").selects(&s));
    assert!(StreamSelector::new("+1").selects(&s));
    assert!(!StreamSelector::new("2").selects(&s));
    assert!(StreamSelector::new("vector").selects(&s));
    assert!(!StreamSelector::new("accel").selects(&s));
    // A number that is no stream id is a name.
    assert!(matches!(StreamSelector::new("256"), StreamSelector::Name(ref n) if n == "256"));
    assert!(matches!(StreamSelector::new("255"), StreamSelector::Id(255)));
    assert!(matches!(StreamSelector::new("-1"), StreamSelector::Name(_)));
}

#[test]
fn csv_header_and_fields() {
    let s = sample(4, 0, None);
    assert_eq!(csv_header(&s), "time,x,y");
    assert_eq!(
        csv_fields(&s),
        vec![
            CsvField::Time(TimePoint { start_time: 0, steps: 5, decimation: 1, sampling_rate: 1000 }),
            CsvField::Text("-5".to_string()),
            CsvField::Float(FloatValue::Single(9)),
        ]
    );
    let mut wide = sample(0, 0, None);
    wide.columns = vec![
        Column { desc: column_meta(0, "a"), value: ColumnData::UInt(u64::MAX) },
        Column { desc: column_meta(1, "b"), value: ColumnData::Int(i64::MIN) },
        Column { desc: column_meta(2, "c"), value: ColumnData::Int(0) },
    ];
    assert_eq!(csv_header(&wide), "time,a,b,c");
    assert_eq!(
        csv_fields(&wide)[1..],
        [
            CsvField::Text("18446744073709551615".to_string()),
            CsvField::Text("-9223372036854775808".to_string()),
            CsvField::Text("0".to_string()),
        ]
    );
    let mut bare = sample(0, 0, None);
    bare.columns.clear();
    assert_eq!(csv_header(&bare), "time");
    assert_eq!(csv_fields(&bare).len(), 1);
}

#[test]
fn file_names() {
    assert_eq!(csv_output_path(None, "run.tio", "vector"), "run.tio.vector.csv");
    assert_eq!(csv_output_path(Some("out"), "run.tio", "1"), "out.1.csv");
    assert_eq!(hdf_output_name("run", 0), "run.h5");
    assert_eq!(hdf_output_name("run", 1), "run_1.h5");
    assert_eq!(hdf_output_name("run", 1000), "run_1000.h5");
    assert_eq!(log_file_name("20240309-070500"), "log.20240309-070500.tio");
    assert_eq!(log_file_name("19991231-235960"), "log.19991231-235960.tio");
    assert_eq!(log_file_name(""), "log..tio");
}

#[test]
fn log_begun_now_is_named_by_the_local_time() {
    let name = default_log_path();
    let stamp = name.strip_prefix("log.").unwrap().strip_suffix(".tio").unwrap();
    // The year of the clock has four digits.
    assert_eq!(stamp.len(), 15);
    for (i, c) in stamp.chars().enumerate() {
        if i == 8 {
            assert_eq!(c, '-');
        } else {
            assert!(c.is_ascii_digit());
        }
    }
    let month = stamp[4..6].parse::<u32>().unwrap();
    assert!((1..=12).contains(&month));
    assert_eq!(name, log_file_name(stamp));
}

#[test]
fn session_changes_are_ignored_across_files() {
    assert!(!ignores_session(0));
    assert!(!ignores_session(1));
    assert!(ignores_session(2));
    assert!(!csv_ignores_session(1, false));
    assert!(csv_ignores_session(1, true));
    assert!(csv_ignores_session(2, false));
}

#[test]
fn deeper_routes_are_kept_sorted_and_once() {
    let mut deeper = DeeperRoutes::new();
    for text in ["/0/5", "/0/1", "/0/10", "/0/1", "/0/2/0", "/0/2", "/0/5"] {
        deeper.insert(&route(text));
    }
    let texts: Vec<String> = (0..deeper.len()).map(|i| deeper.get(i).to_string()).collect();
    assert_eq!(texts, vec!["/0/1", "/0/2", "/0/2/0", "/0/5", "/0/10"]);
}

#[test]
fn warning_names_deeper_routes() {
    let mut deeper = DeeperRoutes::new();
    assert!(dump_warning("/0", false, &deeper).is_empty());
    for i in [3u8, 1, 2] {
        deeper.insert(&route("/0").child(i).unwrap());
    }
    assert!(dump_warning("/0", true, &deeper).is_empty());
    assert_eq!(
        dump_warning("/0", false, &deeper),
        vec![
            "No data at route /0, but found data at:",
            "  /0/1",
            "  /0/2",
            "  /0/3",
            "",
            "Use -s to specify a different route, or remove --depth to include all",
        ]
    );
    for i in [9u8, 8, 7, 6] {
        deeper.insert(&route("/0").child(i).unwrap());
    }
    assert_eq!(
        dump_warning("/0", false, &deeper),
        vec![
            "No data at route /0, but found data at:",
            "  /0/1",
            "  /0/2",
            "  /0/3",
            "  /0/6",
            "  /0/7",
            "  ... and 2 more",
            "",
            "Use -s to specify a different route, or remove --depth to include all",
        ]
    );
}

#[test]
fn tree_parser_keeps_devices_apart() {
    let mut tree = TreeParser::new(false);
    let mut feed = |r: &str, payload: Payload| {
        tree.process_packet(&Packet { payload, routing: route(r), ttl: 0 })
    };
    for r in ["/0", "/1"] {
        let s = sample(0, 0, None);
        assert!(feed(r, Payload::DeviceMetadata(s.device.clone())).is_empty());
        assert!(feed(
            r,
            Payload::StreamMetadata(StreamMetadata { sample_size: 4, n_columns: 1, ..s.stream.clone() })
        )
        .is_empty());
        assert!(feed(r, Payload::SegmentMetadata(s.segment.clone())).is_empty());
    }
    // Only the device at /0 learns of its column.
    assert!(feed("/0", Payload::ColumnMetadata(column_meta(0, "x"))).is_empty());
    let data = |n| Payload::StreamData(StreamData { stream_id: 1, first_sample_n: n, data: vec![0; 8] });
    assert!(feed("/1", data(0)).is_empty());
    let samples = feed("/0", data(0));
    assert_eq!(samples.len(), 2);
    assert_eq!(samples[0].boundary.map(|b| b.reason), Some(BoundaryReason::Initial));
    assert!(feed("/1", Payload::ColumnMetadata(column_meta(0, "x"))).is_empty());
    let samples = feed("/1", data(7));
    assert_eq!(samples.len(), 2);
    assert_eq!(samples[0].n, 7);
    assert_eq!(samples[0].boundary.map(|b| b.reason), Some(BoundaryReason::Initial));
}
