use twinleaf::cli::{
    MonitorCli, ProxyCli, SensorChoice, TioOpts, DEFAULT_PROXY_PORT, DEFAULT_RECONNECT_TIMEOUT,
};
use twinleaf::filter::ColumnFilter;
use twinleaf::meta::{
    ColumnMetadata, DataType, DeviceMetadata, SegmentMetadata, StreamData, StreamMetadata,
};
use twinleaf::packet::{read_log, Packet, ParseError};
use twinleaf::parser::DeviceDataParser;
use twinleaf::payload::{Payload, RpcReply, Traffic};
use twinleaf::route::DeviceRoute;
use twinleaf::sample::{Boundary, BoundaryReason};
use twinleaf::text::{chars_of, string_of};
use twinleaf::transport::{parse_url, TransportUrl, UrlError};

fn route(s: &str) -> DeviceRoute {
    DeviceRoute::from_str(s).unwrap()
}

fn frames(packets: &[Packet]) -> Vec<u8> {
    packets.iter().flat_map(|p| p.serialize().unwrap()).collect()
}

fn some_packets() -> Vec<Packet> {
    vec![
        Packet { payload: Payload::Heartbeat(vec![1]), routing: route("/0"), ttl: 0 },
        Packet {
            payload: Payload::RpcReply(RpcReply { id: 2, reply: vec![3, 4] }),
            routing: route("/"),
            ttl: 3,
        },
        Packet { payload: Payload::Other { type_id: 0x60, bytes: vec![] }, routing: route("/5/6"), ttl: 0 },
    ]
}

#[test]
fn log_reads_back_whole() {
    let packets = some_packets();
    let log = frames(&packets);
    let read = read_log(&log);
    assert_eq!(read.consumed, log.len());
    assert_eq!(read.fault, None);
    assert_eq!(format!("{:?}", read.packets), format!("{:?}", packets));
    let empty = read_log(&[]);
    assert!(empty.packets.is_empty());
    assert_eq!((empty.consumed, empty.fault), (0, None));
}

#[test]
fn log_with_partial_frame_stops_there() {
    let packets = some_packets();
    let whole = frames(&packets[..2]);
    let mut log = whole.clone();
    let last = packets[2].serialize().unwrap();
    log.extend_from_slice(&last[..last.len() - 1]);
    let read = read_log(&log);
    assert_eq!(read.packets.len(), 2);
    assert_eq!(read.consumed, whole.len());
    assert_eq!(read.fault, Some(ParseError::NeedMore));
}

#[test]
fn log_with_bad_frame_stops_there() {
    let packets = some_packets();
    let whole = frames(&packets[..1]);
    let mut log = whole.clone();
    log.extend_from_slice(&[0x10, 0x0F, 0x00, 0x00]);
    log.extend_from_slice(&frames(&packets[1..]));
    let read = read_log(&log);
    assert_eq!(read.packets.len(), 1);
    assert_eq!(read.consumed, whole.len());
    assert_eq!(read.fault, Some(ParseError::Invalid));
}

#[test]
fn addresses_name_links() {
    assert_eq!(
        parse_url("tcp://localhost").unwrap(),
        TransportUrl::Tcp { host: "localhost".to_string(), port: 7855 }
    );
    assert_eq!(
        parse_url("tcp://10.0.0.7:9000").unwrap(),
        TransportUrl::Tcp { host: "10.0.0.7".to_string(), port: 9000 }
    );
    assert_eq!(
        parse_url("tcp://host:65535").unwrap(),
        TransportUrl::Tcp { host: "host".to_string(), port: 65535 }
    );
    assert_eq!(
        parse_url("serial:///dev/ttyUSB0").unwrap(),
        TransportUrl::Serial { path: "/dev/ttyUSB0".to_string(), baud: None }
    );
    assert_eq!(
        parse_url("serial:///dev/ttyUSB0:115200").unwrap(),
        TransportUrl::Serial { path: "/dev/ttyUSB0".to_string(), baud: Some(115200) }
    );
    assert_eq!(
        parse_url("serial://COM3").unwrap(),
        TransportUrl::Serial { path: "COM3".to_string(), baud: None }
    );
    assert_eq!(parse_url("auto").unwrap(), TransportUrl::Auto);
}

#[test]
fn bad_addresses_are_refused() {
    assert_eq!(parse_url("").unwrap_err(), UrlError::UnknownScheme);
    assert_eq!(parse_url("localhost").unwrap_err(), UrlError::UnknownScheme);
    assert_eq!(parse_url("udp://host").unwrap_err(), UrlError::UnknownScheme);
    assert_eq!(parse_url("TCP://host").unwrap_err(), UrlError::UnknownScheme);
    assert_eq!(parse_url("auto ").unwrap_err(), UrlError::UnknownScheme);
    assert_eq!(parse_url("tcp://").unwrap_err(), UrlError::Empty);
    assert_eq!(parse_url("tcp://:80").unwrap_err(), UrlError::Empty);
    assert_eq!(parse_url("serial://").unwrap_err(), UrlError::Empty);
    assert_eq!(parse_url("tcp://host:").unwrap_err(), UrlError::BadNumber);
    assert_eq!(parse_url("tcp://host:65536").unwrap_err(), UrlError::BadNumber);
    assert_eq!(parse_url("tcp://host:http").unwrap_err(), UrlError::BadNumber);
    assert_eq!(parse_url("tcp://host:-1").unwrap_err(), UrlError::BadNumber);
    assert_eq!(parse_url("serial:///dev/tty:4294967296").unwrap_err(), UrlError::BadNumber);
    assert_eq!(parse_url("serial:///dev/tty:fast").unwrap_err(), UrlError::BadNumber);
}

#[test]
fn options_have_their_defaults() {
    let tio = TioOpts::default();
    assert_eq!(tio.root, "tcp://localhost");
    assert_eq!(tio.route_path, "/");
    assert!(tio.parse_route().is_root());
    let proxy = ProxyCli::default();
    assert_eq!(proxy.port, 7855);
    assert_eq!(proxy.port, DEFAULT_PROXY_PORT);
    assert_eq!(proxy.reconnect_timeout, 30);
    assert_eq!(proxy.reconnect_timeout, DEFAULT_RECONNECT_TIMEOUT);
    assert_eq!(proxy.subtree, "/");
    assert_eq!(proxy.timestamp_format, "%T%.3f ");
    assert!(!proxy.kick_slow && !proxy.verbose && !proxy.debug);
    assert!(!proxy.dump && !proxy.dump_data && !proxy.dump_meta && !proxy.dump_hb);
    assert!(proxy.sensor_url.is_none() && !proxy.auto && !proxy.enumerate);
    let monitor = MonitorCli::default();
    assert_eq!(monitor.fps, 20);
    assert!(!monitor.all && monitor.colors.is_none());
    assert_eq!(monitor.tio.root, "tcp://localhost");
}

#[test]
fn proxy_options_choose_the_sensor() {
    let mut options = ProxyCli::default();
    assert_eq!(options.sensor(), SensorChoice::Missing);
    options.sensor_url = Some("tcp://sensor".to_string());
    assert_eq!(options.sensor(), SensorChoice::Url("tcp://sensor".to_string()));
    options.auto = true;
    assert_eq!(options.sensor(), SensorChoice::Auto);
    options.enumerate = true;
    assert_eq!(options.sensor(), SensorChoice::Enumerate);
}

#[test]
fn proxy_options_choose_what_is_dumped() {
    let data = Payload::StreamData(StreamData { stream_id: 0, first_sample_n: 0, data: vec![] });
    let meta = Payload::SegmentMetadata(SegmentMetadata {
        stream_id: 0,
        sampling_rate: 0,
        decimation: 0,
        filter_cutoff: 0,
        filter_type: 0,
        time_ref_epoch: 0,
        time_ref_serial: String::new(),
        start_time: 0,
        sample_n_offset: 0,
    });
    let beat = Payload::Heartbeat(vec![]);
    let other = Payload::RpcReply(RpcReply { id: 0, reply: vec![] });
    assert_eq!(data.traffic(), Traffic::Data);
    assert_eq!(meta.traffic(), Traffic::Metadata);
    assert_eq!(beat.traffic(), Traffic::Heartbeat);
    assert_eq!(other.traffic(), Traffic::Other);
    assert_eq!(Payload::LogMessage(vec![]).traffic(), Traffic::Other);
    let mut options = ProxyCli::default();
    for p in [&data, &meta, &beat, &other] {
        assert!(!options.dumps(p));
    }
    options.dump = true;
    assert!(options.dumps(&other) && !options.dumps(&data) && !options.dumps(&meta) && !options.dumps(&beat));
    options.dump_data = true;
    assert!(options.dumps(&data) && !options.dumps(&meta));
    options.dump_meta = true;
    assert!(options.dumps(&meta) && !options.dumps(&beat));
    options.dump_hb = true;
    assert!(options.dumps(&beat));
}

#[test]
fn description_waits_for_all_streams() {
    let mut parser = DeviceDataParser::new(false);
    let feed = |parser: &mut DeviceDataParser, payload: Payload| {
        parser.process_packet(&Packet { payload, routing: route("/"), ttl: 0 });
    };
    assert!(parser.description().is_none());
    feed(
        &mut parser,
        Payload::DeviceMetadata(DeviceMetadata {
            serial: "S".to_string(),
            firmware: "F".to_string(),
            session_id: 1,
            n_streams: 2,
        }),
    );
    assert!(parser.description().is_none());
    for id in [1u8, 2] {
        feed(
            &mut parser,
            Payload::StreamMetadata(StreamMetadata {
                stream_id: id,
                name: format!("s{}", id),
                sample_size: 4,
                n_columns: 1,
                total_samples: 0,
            }),
        );
        feed(
            &mut parser,
            Payload::SegmentMetadata(SegmentMetadata {
                stream_id: id,
                sampling_rate: 10,
                decimation: 1,
                filter_cutoff: 0,
                filter_type: 0,
                time_ref_epoch: 0,
                time_ref_serial: String::new(),
                start_time: 0,
                sample_n_offset: 0,
            }),
        );
        assert!(parser.description().is_none());
    }
    for id in [1u8, 2] {
        assert!(parser.description().is_none());
        feed(
            &mut parser,
            Payload::ColumnMetadata(ColumnMetadata {
                stream_id: id,
                index: 0,
                name: "x".to_string(),
                units: String::new(),
                description: String::new(),
                data_type: DataType::Float32,
            }),
        );
    }
    let description = parser.description().unwrap();
    assert_eq!(description.device.n_streams, 2);
    assert_eq!(description.streams.len(), 2);
    assert_eq!(description.streams[0].stream.name, "s1");
    assert_eq!(description.streams[1].stream.name, "s2");
    assert_eq!(description.streams[1].columns.len(), 1);
    assert_eq!(description.streams[1].segment.sampling_rate, 10);
}

#[test]
fn session_change_asks_for_a_refresh() {
    let mut parser = DeviceDataParser::new(false);
    let mut feed = |payload: Payload| {
        parser.process_packet(&Packet { payload, routing: route("/"), ttl: 0 })
    };
    let device = |session_id| {
        Payload::DeviceMetadata(DeviceMetadata {
            serial: "S".to_string(),
            firmware: "F".to_string(),
            session_id,
            n_streams: 1,
        })
    };
    feed(device(1));
    feed(Payload::StreamMetadata(StreamMetadata {
        stream_id: 1,
        name: "s".to_string(),
        sample_size: 1,
        n_columns: 1,
        total_samples: 0,
    }));
    feed(Payload::SegmentMetadata(SegmentMetadata {
        stream_id: 1,
        sampling_rate: 10,
        decimation: 1,
        filter_cutoff: 0,
        filter_type: 0,
        time_ref_epoch: 0,
        time_ref_serial: String::new(),
        start_time: 0,
        sample_n_offset: 0,
    }));
    feed(Payload::ColumnMetadata(ColumnMetadata {
        stream_id: 1,
        index: 0,
        name: "x".to_string(),
        units: String::new(),
        description: String::new(),
        data_type: DataType::UInt8,
    }));
    let data = |n| Payload::StreamData(StreamData { stream_id: 1, first_sample_n: n, data: vec![7] });
    let first = feed(data(0));
    assert!(!first[0].begins_session());
    feed(device(2));
    let second = feed(data(1));
    assert_eq!(second[0].boundary, Some(Boundary { reason: BoundaryReason::SessionChanged }));
    assert!(second[0].begins_session());
    assert!(!feed(data(2))[0].begins_session());
}

#[test]
fn filter_error_message_has_its_prefix() {
    assert_eq!(ColumnFilter::error_message("no good"), "Invalid glob pattern: no good");
    assert_eq!(ColumnFilter::error_message(""), "Invalid glob pattern: ");
}

#[test]
fn texts_convert_to_characters_and_back() {
    for text in ["", "abc", "né", "日本語", "a\u{1F600}b"] {
        let chars = chars_of(text);
        assert_eq!(chars, text.chars().collect::<Vec<char>>());
        assert_eq!(string_of(&chars), text);
    }
}
