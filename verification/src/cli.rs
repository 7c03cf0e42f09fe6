//! What the command-line tools are told to do: the options of each tool as
//! plain values, and what the options mean where that is more than their text.

use crate::export::SplitPolicy;
use crate::payload::{traffic_of, Payload, Traffic};
use crate::route::{parse_route, DeviceRoute};
use vstd::prelude::*;
use vstd::string::*;

verus! {

/// The port on which a proxy listens, and to which a `tcp://` address without
/// a port refers.
pub const DEFAULT_PROXY_PORT: u16 = 7855;

/// Seconds for which a proxy keeps trying to reconnect to its sensor.
pub const DEFAULT_RECONNECT_TIMEOUT: u64 = 30;

/// How to reach a sensor: the address of the root of the sensor tree, and the
/// path of the sensor in that tree.
#[derive(Debug)]
pub struct TioOpts {
    /// Sensor root address, such as `tcp://localhost` or `serial:///dev/ttyUSB0`.
    pub root: String,
    /// Sensor path in the sensor tree, such as `/`, `/0` or `/0/1`.
    pub route_path: String,
}

/// The address of the sensor root where none is given: the proxy on this
/// machine.
pub const DEFAULT_ROOT: &'static str = "tcp://localhost";

/// How the proxy stamps its lines with the time where it is not told how:
/// hours, minutes, seconds and milliseconds.
pub const DEFAULT_TIMESTAMP_FORMAT: &'static str = "%T%.3f ";

/// Screen refreshes per second of the live display where none is given.
pub const DEFAULT_MONITOR_FPS: u32 = 20;

impl Default for TioOpts {
    fn default() -> (r: TioOpts)
        ensures
            r.root@ == DEFAULT_ROOT@,
            r.route_path@ == "/"@,
    {
        TioOpts { root: String::from_str(DEFAULT_ROOT), route_path: String::from_str("/") }
    }
}

impl TioOpts {
    /// The route that `route_path` denotes; the root where it denotes none.
    pub fn parse_route(&self) -> (r: DeviceRoute)
        ensures
            r@ == match parse_route(self.route_path@) {
                Ok(hops) => hops,
                Err(_) => Seq::<u8>::empty(),
            },
    {
        match DeviceRoute::from_str(self.route_path.as_str()) {
            Ok(route) => route,
            Err(_) => DeviceRoute::root(),
        }
    }
}

/// Options of the proxy, which shares one sensor among many clients over TCP.
#[derive(Debug)]
pub struct ProxyCli {
    /// Sensor address; needed unless `auto` or `enumerate` is set.
    pub sensor_url: Option<String>,
    /// TCP port to listen on for clients.
    pub port: u16,
    /// Kick off slow clients instead of dropping traffic.
    pub kick_slow: bool,
    /// Sensor subtree to look at.
    pub subtree: String,
    /// Verbose output.
    pub verbose: bool,
    /// Debugging output.
    pub debug: bool,
    /// Timestamp format.
    pub timestamp_format: String,
    /// Time limit for sensor reconnection attempts, in seconds.
    pub reconnect_timeout: u64,
    /// Dump packet traffic except sample data, metadata and heartbeats.
    pub dump: bool,
    /// Dump sample data traffic.
    pub dump_data: bool,
    /// Dump sample metadata traffic.
    pub dump_meta: bool,
    /// Dump heartbeat traffic.
    pub dump_hb: bool,
    /// Pick the first serial device found.
    pub auto: bool,
    /// Enumerate all serial devices, then quit.
    pub enumerate: bool,
}

impl Default for ProxyCli {
    fn default() -> (r: ProxyCli)
        ensures
            r.sensor_url is None,
            r.port == DEFAULT_PROXY_PORT,
            !r.kick_slow,
            r.subtree@ == "/"@,
            !r.verbose && !r.debug,
            r.timestamp_format@ == DEFAULT_TIMESTAMP_FORMAT@,
            r.reconnect_timeout == DEFAULT_RECONNECT_TIMEOUT,
            !r.dump && !r.dump_data && !r.dump_meta && !r.dump_hb,
            !r.auto && !r.enumerate,
    {
        ProxyCli {
            sensor_url: None,
            port: DEFAULT_PROXY_PORT,
            kick_slow: false,
            subtree: String::from_str("/"),
            verbose: false,
            debug: false,
            timestamp_format: String::from_str(DEFAULT_TIMESTAMP_FORMAT),
            reconnect_timeout: DEFAULT_RECONNECT_TIMEOUT,
            dump: false,
            dump_data: false,
            dump_meta: false,
            dump_hb: false,
            auto: false,
            enumerate: false,
        }
    }
}

/// What the proxy is asked to connect to.
#[derive(Debug, PartialEq, Eq)]
pub enum SensorChoice {
    /// List the serial devices and quit.
    Enumerate,
    /// The first serial device found.
    Auto,
    /// The sensor at this address.
    Url(String),
    /// Nothing was named.
    Missing,
}

/// What a `SensorChoice` holds.
pub enum SensorChoiceView {
    Enumerate,
    Auto,
    Url(Seq<char>),
    Missing,
}

impl View for SensorChoice {
    type V = SensorChoiceView;

    open spec fn view(&self) -> SensorChoiceView {
        match self {
            SensorChoice::Enumerate => SensorChoiceView::Enumerate,
            SensorChoice::Auto => SensorChoiceView::Auto,
            SensorChoice::Url(u) => SensorChoiceView::Url(u@),
            SensorChoice::Missing => SensorChoiceView::Missing,
        }
    }
}

impl ProxyCli {
    /// What the proxy is asked to connect to: enumeration comes first, then
    /// the first device found, then the address given.
    pub fn sensor(&self) -> (r: SensorChoice)
        ensures
            r@ == if self.enumerate {
                SensorChoiceView::Enumerate
            } else if self.auto {
                SensorChoiceView::Auto
            } else {
                match self.sensor_url {
                    Some(url) => SensorChoiceView::Url(url@),
                    None => SensorChoiceView::Missing,
                }
            },
    {
        if self.enumerate {
            SensorChoice::Enumerate
        } else if self.auto {
            SensorChoice::Auto
        } else {
            match &self.sensor_url {
                Some(url) => SensorChoice::Url(url.clone()),
                None => SensorChoice::Missing,
            }
        }
    }

    /// Whether a packet with this payload is dumped: sample data, sample
    /// metadata and heartbeats each under their own option, all else under
    /// the plain one.
    pub fn dumps(&self, payload: &Payload) -> (r: bool)
        ensures
            r == match traffic_of(payload@) {
                Traffic::Data => self.dump_data,
                Traffic::Metadata => self.dump_meta,
                Traffic::Heartbeat => self.dump_hb,
                Traffic::Other => self.dump,
            },
    {
        match payload.traffic() {
            Traffic::Data => self.dump_data,
            Traffic::Metadata => self.dump_meta,
            Traffic::Heartbeat => self.dump_hb,
            Traffic::Other => self.dump,
        }
    }
}

/// How runs are organized in the exported file, as chosen on the command line.
#[derive(Clone, Copy, Debug, PartialEq, Eq, Structural)]
pub enum SplitLevel {
    /// No run splitting.
    Unsplit,
    /// Each stream has its own run counter.
    Stream,
    /// All streams of a device share a run counter.
    Device,
    /// All streams share one run counter.
    Global,
}

impl Default for SplitLevel {
    fn default() -> (r: SplitLevel)
        ensures
            r == SplitLevel::Unsplit,
    {
        SplitLevel::Unsplit
    }
}

/// What the tool is asked to do.
#[derive(Debug)]
#[allow(inconsistent_fields)]
pub enum Commands {
    /// List available RPCs on the device.
    RpcList { tio: TioOpts },
    /// Execute an RPC on the device.
    Rpc {
        tio: TioOpts,
        /// RPC name to execute.
        rpc_name: String,
        /// RPC argument value.
        rpc_arg: Option<String>,
        /// RPC request type.
        req_type: Option<String>,
        /// RPC reply type.
        rep_type: Option<String>,
        /// Enable debug output.
        debug: bool,
    },
    /// Dump RPC data from the device.
    RpcDump {
        tio: TioOpts,
        /// RPC name to dump.
        rpc_name: String,
        /// Trigger a capture before dumping.
        capture: bool,
    },
    /// Dump data from a live device.
    Dump {
        tio: TioOpts,
        /// Show parsed data samples.
        data: bool,
        /// Show metadata on boundaries.
        meta: bool,
        /// Routing depth limit; unlimited when absent.
        depth: Option<usize>,
    },
    /// Log samples to a file.
    Log {
        tio: TioOpts,
        /// Output log file path.
        file: String,
        /// Flush after every packet.
        unbuffered: bool,
        /// Skip the metadata request and log all packets.
        raw: bool,
        /// Routing depth, used in raw mode only.
        depth: Option<usize>,
    },
    /// Log metadata to a file.
    LogMetadata {
        tio: TioOpts,
        /// Output metadata file path.
        file: String,
    },
    /// Dump data from binary log files.
    LogDump {
        /// Input log files.
        files: Vec<String>,
        /// Show parsed data samples.
        data: bool,
        /// Show metadata on boundaries.
        meta: bool,
        /// Sensor path in the sensor tree.
        sensor: String,
        /// Routing depth limit; unlimited when absent.
        depth: Option<usize>,
    },
    /// Dump parsed data from binary log files; superseded by `LogDump`.
    LogDataDump {
        /// Input log files.
        files: Vec<String>,
    },
    /// Convert binary log data to CSV.
    LogCsv {
        /// Stream id or stream name.
        stream: String,
        /// Input log files.
        files: Vec<String>,
        /// Sensor route in the device tree; the root when absent.
        sensor: Option<String>,
        /// External metadata file path.
        metadata: Option<String>,
        /// Output filename prefix.
        output: Option<String>,
    },
    /// Convert binary log files to HDF5.
    LogHdf {
        /// Input log files.
        files: Vec<String>,
        /// Output file path; derived from the first input when absent.
        output: Option<String>,
        /// Glob pattern that selects the columns to export.
        filter: Option<String>,
        /// Compress the datasets.
        compress: bool,
        /// Report how the glob pattern decides.
        debug: bool,
        /// How to organize runs in the output.
        split_level: SplitLevel,
        /// When a discontinuity starts a new run.
        split_policy: SplitPolicy,
    },
    /// Upgrade device firmware.
    FirmwareUpgrade {
        tio: TioOpts,
        /// Input firmware image path.
        firmware_path: String,
    },
    /// Dump data samples from the device; superseded by `Dump`.
    DataDump { tio: TioOpts },
    /// Dump data samples from all devices in the tree; superseded by `Dump`.
    DataDumpAll { tio: TioOpts },
    /// Dump device metadata; superseded by `Dump`.
    MetaDump { tio: TioOpts },
}

/// Options of the sensor management and data logging tool.
#[derive(Debug)]
pub struct TioToolCli {
    pub command: Commands,
}

/// Options of the live data display.
#[derive(Debug)]
pub struct MonitorCli {
    pub tio: TioOpts,
    /// Show all devices of the tree.
    pub all: bool,
    /// Screen refreshes per second.
    pub fps: u32,
    /// Colour scheme.
    pub colors: Option<String>,
}

impl Default for MonitorCli {
    fn default() -> (r: MonitorCli)
        ensures
            r.tio.root@ == DEFAULT_ROOT@,
            r.tio.route_path@ == "/"@,
            !r.all,
            r.fps == DEFAULT_MONITOR_FPS,
            r.colors is None,
    {
        MonitorCli { tio: TioOpts::default(), all: false, fps: DEFAULT_MONITOR_FPS, colors: None }
    }
}

} // verus!
