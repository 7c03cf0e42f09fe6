//! What a packet carries, and how it is laid out in bytes.
//!
//! Numbers are little-endian, text is UTF-8. A text that is followed by other
//! fields is preceded by its length in one byte, so it holds at most 255
//! bytes; the name of an RPC method at most 127. The layouts:
//!
//! - RPC request: id (2), then either a name length below 128 and the name,
//!   or the byte `0x80` and a method id (2); the rest is the argument.
//! - RPC reply: id (2); the rest is the result.
//! - RPC error: id (2), error code (2); the rest is the message.
//! - Stream data: stream id (1), number of the first sample (4); the rest is
//!   sample data.
//! - Device metadata: session id (4), number of streams (1), lengths of serial
//!   and firmware (1 each), serial, firmware.
//! - Stream metadata: stream id (1), number of columns (1), sample size (2),
//!   total samples (4), name length (1), name.
//! - Segment metadata: stream id (1), filter type (1), time reference epoch
//!   (1), length of the time reference serial (1), sampling rate (4),
//!   decimation (4), filter cutoff (4), start time (4), sample number offset
//!   (4), time reference serial.
//! - Column metadata: stream id (1), index (1), data type (1), lengths of
//!   name, units and description (1 each), name, units, description.
//! - Heartbeat, timebase, log message and unknown types: the bytes as they are.

use crate::meta::{
    ColumnMetadata, ColumnMetadataView, DataType, DeviceMetadata, DeviceMetadataView,
    SegmentMetadata, SegmentMetadataView, StreamData, StreamDataView, StreamMetadata,
    StreamMetadataView,
};
use crate::wire::{
    copy_bytes, from_le16, from_le32, le16, le32, lemma_bytes_of_text, lemma_le16_bytes,
    lemma_le16_round_trip, lemma_le32_bytes, lemma_le32_round_trip, lemma_text_round_trip,
    push_bytes, push_le16, push_le32, push_text_bytes, read_le16, read_le32, read_text, text_len,
    text_of_bytes,
};
use vstd::prelude::*;
use vstd::utf8::encode_utf8;

verus! {

pub const TYPE_RPC_REQUEST: u8 = 0x01;

pub const TYPE_RPC_REPLY: u8 = 0x02;

pub const TYPE_RPC_ERROR: u8 = 0x03;

pub const TYPE_HEARTBEAT: u8 = 0x10;

pub const TYPE_TIMEBASE: u8 = 0x11;

pub const TYPE_LOG_MESSAGE: u8 = 0x12;

pub const TYPE_STREAM_METADATA: u8 = 0x20;

pub const TYPE_SEGMENT_METADATA: u8 = 0x21;

pub const TYPE_COLUMN_METADATA: u8 = 0x22;

pub const TYPE_DEVICE_METADATA: u8 = 0x23;

pub const TYPE_STREAM_DATA: u8 = 0x80;

/// The longest text that a length byte can announce.
pub const MAX_TEXT: usize = 255;

/// The longest name of an RPC method.
pub const MAX_METHOD_NAME: usize = 127;

/// Marks an RPC request that names its method by number.
pub const METHOD_BY_ID: u8 = 0x80;

/// Whether a type byte stands for one of the known kinds of payload.
pub open spec fn known_type(type_id: u8) -> bool {
    type_id == TYPE_RPC_REQUEST || type_id == TYPE_RPC_REPLY || type_id == TYPE_RPC_ERROR
        || type_id == TYPE_HEARTBEAT || type_id == TYPE_TIMEBASE || type_id == TYPE_LOG_MESSAGE
        || type_id == TYPE_STREAM_METADATA || type_id == TYPE_SEGMENT_METADATA || type_id
        == TYPE_COLUMN_METADATA || type_id == TYPE_DEVICE_METADATA || type_id == TYPE_STREAM_DATA
}

/// Why a device refused an RPC.
#[derive(Clone, Copy, Debug, PartialEq, Eq, Structural)]
pub enum RpcErrorCode {
    NotFound,
    InvalidArgs,
    Unauthorized,
    Busy,
    Internal,
    Timeout,
    /// A code that stands for none of the above.
    Other(u16),
}

impl RpcErrorCode {
    /// The kind of error that a wire code stands for.
    pub open spec fn spec_from_code(code: u16) -> RpcErrorCode {
        if code == 1 {
            RpcErrorCode::NotFound
        } else if code == 2 {
            RpcErrorCode::InvalidArgs
        } else if code == 3 {
            RpcErrorCode::Unauthorized
        } else if code == 4 {
            RpcErrorCode::Busy
        } else if code == 5 {
            RpcErrorCode::Internal
        } else if code == 6 {
            RpcErrorCode::Timeout
        } else {
            RpcErrorCode::Other(code)
        }
    }

    /// The wire code of a kind of error.
    pub open spec fn spec_code(self) -> u16 {
        match self {
            RpcErrorCode::NotFound => 1,
            RpcErrorCode::InvalidArgs => 2,
            RpcErrorCode::Unauthorized => 3,
            RpcErrorCode::Busy => 4,
            RpcErrorCode::Internal => 5,
            RpcErrorCode::Timeout => 6,
            RpcErrorCode::Other(code) => code,
        }
    }

    /// Whether this is how its wire code reads: `Other` holds no code that
    /// stands for a kind of its own.
    pub open spec fn canonical(self) -> bool {
        match self {
            RpcErrorCode::Other(code) => !(1 <= code <= 6),
            _ => true,
        }
    }

    /// The kind of error that a wire code stands for; a code that stands for
    /// no kind of its own is kept as `Other`.
    pub fn from_code(code: u16) -> (r: RpcErrorCode)
        ensures
            r == RpcErrorCode::spec_from_code(code),
            r.canonical(),
            r.spec_code() == code,
    {
        if code == 1 {
            RpcErrorCode::NotFound
        } else if code == 2 {
            RpcErrorCode::InvalidArgs
        } else if code == 3 {
            RpcErrorCode::Unauthorized
        } else if code == 4 {
            RpcErrorCode::Busy
        } else if code == 5 {
            RpcErrorCode::Internal
        } else if code == 6 {
            RpcErrorCode::Timeout
        } else {
            RpcErrorCode::Other(code)
        }
    }

    /// The wire code of a kind of error.
    #[verifier::when_used_as_spec(spec_code)]
    pub fn code(self) -> (c: u16)
        ensures
            c == self.spec_code(),
    {
        match self {
            RpcErrorCode::NotFound => 1,
            RpcErrorCode::InvalidArgs => 2,
            RpcErrorCode::Unauthorized => 3,
            RpcErrorCode::Busy => 4,
            RpcErrorCode::Internal => 5,
            RpcErrorCode::Timeout => 6,
            RpcErrorCode::Other(code) => code,
        }
    }

    /// Whether `Other` holds no code that stands for a kind of its own.
    pub fn is_canonical(self) -> (r: bool)
        ensures
            r == self.canonical(),
    {
        match self {
            RpcErrorCode::Other(code) => !(1 <= code && code <= 6),
            _ => true,
        }
    }
}

/// How an RPC request names the method to call.
#[derive(Debug)]
pub enum RpcMethod {
    Id(u16),
    Name(String),
}

/// What an `RpcMethod` holds.
pub enum RpcMethodView {
    Id(u16),
    Name(Seq<char>),
}

impl View for RpcMethod {
    type V = RpcMethodView;

    open spec fn view(&self) -> RpcMethodView {
        match self {
            RpcMethod::Id(id) => RpcMethodView::Id(*id),
            RpcMethod::Name(name) => RpcMethodView::Name(name@),
        }
    }
}

impl Clone for RpcMethod {
    fn clone(&self) -> (r: Self)
        ensures
            r@ == self@,
    {
        match self {
            RpcMethod::Id(id) => RpcMethod::Id(*id),
            RpcMethod::Name(name) => RpcMethod::Name(name.clone()),
        }
    }
}

/// A call of a method of a device.
#[derive(Debug)]
pub struct RpcRequest {
    /// Pairs the request with its reply.
    pub id: u16,
    pub method: RpcMethod,
    pub arg: Vec<u8>,
}

/// What an `RpcRequest` holds.
pub struct RpcRequestView {
    pub id: u16,
    pub method: RpcMethodView,
    pub arg: Seq<u8>,
}

impl View for RpcRequest {
    type V = RpcRequestView;

    open spec fn view(&self) -> RpcRequestView {
        RpcRequestView { id: self.id, method: self.method@, arg: self.arg@ }
    }
}

impl Clone for RpcRequest {
    fn clone(&self) -> (r: Self)
        ensures
            r@ == self@,
    {
        RpcRequest { id: self.id, method: self.method.clone(), arg: self.arg.clone() }
    }
}

/// The result of an RPC.
#[derive(Debug)]
pub struct RpcReply {
    /// The id of the request that this answers.
    pub id: u16,
    pub reply: Vec<u8>,
}

/// What an `RpcReply` holds.
pub struct RpcReplyView {
    pub id: u16,
    pub reply: Seq<u8>,
}

impl View for RpcReply {
    type V = RpcReplyView;

    open spec fn view(&self) -> RpcReplyView {
        RpcReplyView { id: self.id, reply: self.reply@ }
    }
}

impl Clone for RpcReply {
    fn clone(&self) -> (r: Self)
        ensures
            r@ == self@,
    {
        RpcReply { id: self.id, reply: self.reply.clone() }
    }
}

/// The refusal of an RPC.
#[derive(Debug)]
pub struct RpcError {
    /// The id of the request that this answers.
    pub id: u16,
    pub error: RpcErrorCode,
    pub message: String,
}

/// What an `RpcError` holds.
pub struct RpcErrorView {
    pub id: u16,
    pub error: RpcErrorCode,
    pub message: Seq<char>,
}

impl View for RpcError {
    type V = RpcErrorView;

    open spec fn view(&self) -> RpcErrorView {
        RpcErrorView { id: self.id, error: self.error, message: self.message@ }
    }
}

impl Clone for RpcError {
    fn clone(&self) -> (r: Self)
        ensures
            r@ == self@,
    {
        RpcError { id: self.id, error: self.error, message: self.message.clone() }
    }
}

/// What a packet carries.
#[derive(Debug)]
pub enum Payload {
    StreamData(StreamData),
    StreamMetadata(StreamMetadata),
    SegmentMetadata(SegmentMetadata),
    ColumnMetadata(ColumnMetadata),
    DeviceMetadata(DeviceMetadata),
    RpcRequest(RpcRequest),
    RpcReply(RpcReply),
    RpcError(RpcError),
    Heartbeat(Vec<u8>),
    LogMessage(Vec<u8>),
    Timebase(Vec<u8>),
    /// A payload of a type that is not known here, carried as it came.
    Other { type_id: u8, bytes: Vec<u8> },
}

/// What a `Payload` holds.
pub enum PayloadView {
    StreamData(StreamDataView),
    StreamMetadata(StreamMetadataView),
    SegmentMetadata(SegmentMetadataView),
    ColumnMetadata(ColumnMetadataView),
    DeviceMetadata(DeviceMetadataView),
    RpcRequest(RpcRequestView),
    RpcReply(RpcReplyView),
    RpcError(RpcErrorView),
    Heartbeat(Seq<u8>),
    LogMessage(Seq<u8>),
    Timebase(Seq<u8>),
    Other { type_id: u8, bytes: Seq<u8> },
}

impl View for Payload {
    type V = PayloadView;

    open spec fn view(&self) -> PayloadView {
        match self {
            Payload::StreamData(d) => PayloadView::StreamData(d@),
            Payload::StreamMetadata(m) => PayloadView::StreamMetadata(m@),
            Payload::SegmentMetadata(m) => PayloadView::SegmentMetadata(m@),
            Payload::ColumnMetadata(m) => PayloadView::ColumnMetadata(m@),
            Payload::DeviceMetadata(m) => PayloadView::DeviceMetadata(m@),
            Payload::RpcRequest(r) => PayloadView::RpcRequest(r@),
            Payload::RpcReply(r) => PayloadView::RpcReply(r@),
            Payload::RpcError(e) => PayloadView::RpcError(e@),
            Payload::Heartbeat(b) => PayloadView::Heartbeat(b@),
            Payload::LogMessage(b) => PayloadView::LogMessage(b@),
            Payload::Timebase(b) => PayloadView::Timebase(b@),
            Payload::Other { type_id, bytes } => PayloadView::Other {
                type_id: *type_id,
                bytes: bytes@,
            },
        }
    }
}

impl Clone for Payload {
    fn clone(&self) -> (r: Self)
        ensures
            r@ == self@,
    {
        match self {
            Payload::StreamData(d) => Payload::StreamData(d.clone()),
            Payload::StreamMetadata(m) => Payload::StreamMetadata(m.clone()),
            Payload::SegmentMetadata(m) => Payload::SegmentMetadata(m.clone()),
            Payload::ColumnMetadata(m) => Payload::ColumnMetadata(m.clone()),
            Payload::DeviceMetadata(m) => Payload::DeviceMetadata(m.clone()),
            Payload::RpcRequest(r) => Payload::RpcRequest(r.clone()),
            Payload::RpcReply(r) => Payload::RpcReply(r.clone()),
            Payload::RpcError(e) => Payload::RpcError(e.clone()),
            Payload::Heartbeat(b) => Payload::Heartbeat(b.clone()),
            Payload::LogMessage(b) => Payload::LogMessage(b.clone()),
            Payload::Timebase(b) => Payload::Timebase(b.clone()),
            Payload::Other { type_id, bytes } => Payload::Other {
                type_id: *type_id,
                bytes: bytes.clone(),
            },
        }
    }
}

/// The kind of traffic that a payload belongs to.
#[derive(Clone, Copy, Debug, PartialEq, Eq, Structural)]
pub enum Traffic {
    /// Sample data.
    Data,
    /// Sample metadata.
    Metadata,
    /// Heartbeats.
    Heartbeat,
    /// Anything else.
    Other,
}

/// The kind of traffic that a payload belongs to.
pub open spec fn traffic_of(payload: PayloadView) -> Traffic {
    match payload {
        PayloadView::StreamData(_) => Traffic::Data,
        PayloadView::StreamMetadata(_) | PayloadView::SegmentMetadata(_)
        | PayloadView::ColumnMetadata(_) | PayloadView::DeviceMetadata(_) => Traffic::Metadata,
        PayloadView::Heartbeat(_) => Traffic::Heartbeat,
        _ => Traffic::Other,
    }
}

/// Whether a text fits a field that a length byte announces.
pub open spec fn short_text(text: Seq<char>) -> bool {
    encode_utf8(text).len() <= MAX_TEXT
}

/// A text after its length in one byte.
pub open spec fn counted_text(text: Seq<char>) -> Seq<u8> {
    seq![encode_utf8(text).len() as u8] + encode_utf8(text)
}

/// The bytes of an RPC request.
pub open spec fn request_bytes(r: RpcRequestView) -> Seq<u8> {
    le16(r.id) + match r.method {
        RpcMethodView::Id(id) => seq![METHOD_BY_ID] + le16(id),
        RpcMethodView::Name(name) => counted_text(name),
    } + r.arg
}

/// Whether an RPC request can be written: its method name, if it has one, is
/// at most 127 bytes long.
pub open spec fn request_ok(r: RpcRequestView) -> bool {
    match r.method {
        RpcMethodView::Id(_) => true,
        RpcMethodView::Name(name) => encode_utf8(name).len() <= MAX_METHOD_NAME,
    }
}

/// The RPC request that bytes spell, if they spell one.
pub open spec fn parse_request(b: Seq<u8>) -> Option<RpcRequestView> {
    if b.len() < 3 {
        None
    } else if b[2] == METHOD_BY_ID {
        if b.len() < 5 {
            None
        } else {
            Some(
                RpcRequestView {
                    id: from_le16(b.subrange(0, 2)),
                    method: RpcMethodView::Id(from_le16(b.subrange(3, 5))),
                    arg: b.skip(5),
                },
            )
        }
    } else if b[2] > METHOD_BY_ID || b.len() < 3 + b[2] {
        None
    } else {
        match text_of_bytes(b.subrange(3, 3 + b[2])) {
            Some(name) => Some(
                RpcRequestView {
                    id: from_le16(b.subrange(0, 2)),
                    method: RpcMethodView::Name(name),
                    arg: b.skip(3 + b[2]),
                },
            ),
            None => None,
        }
    }
}

/// The bytes of an RPC reply.
pub open spec fn reply_bytes(r: RpcReplyView) -> Seq<u8> {
    le16(r.id) + r.reply
}

/// The RPC reply that bytes spell, if they spell one.
pub open spec fn parse_reply(b: Seq<u8>) -> Option<RpcReplyView> {
    if b.len() < 2 {
        None
    } else {
        Some(RpcReplyView { id: from_le16(b.subrange(0, 2)), reply: b.skip(2) })
    }
}

/// The bytes of an RPC error.
pub open spec fn error_bytes(e: RpcErrorView) -> Seq<u8> {
    le16(e.id) + le16(e.error.spec_code()) + encode_utf8(e.message)
}

/// The RPC error that bytes spell, if they spell one.
pub open spec fn parse_error(b: Seq<u8>) -> Option<RpcErrorView> {
    if b.len() < 4 {
        None
    } else {
        match text_of_bytes(b.skip(4)) {
            Some(message) => Some(
                RpcErrorView {
                    id: from_le16(b.subrange(0, 2)),
                    error: RpcErrorCode::spec_from_code(from_le16(b.subrange(2, 4))),
                    message,
                },
            ),
            None => None,
        }
    }
}

/// The bytes of stream data.
pub open spec fn stream_data_bytes(d: StreamDataView) -> Seq<u8> {
    seq![d.stream_id] + le32(d.first_sample_n) + d.data
}

/// The stream data that bytes spell, if they spell any.
pub open spec fn parse_stream_data(b: Seq<u8>) -> Option<StreamDataView> {
    if b.len() < 5 {
        None
    } else {
        Some(
            StreamDataView {
                stream_id: b[0],
                first_sample_n: from_le32(b.subrange(1, 5)),
                data: b.skip(5),
            },
        )
    }
}

/// The bytes of device metadata.
pub open spec fn device_bytes(d: DeviceMetadataView) -> Seq<u8> {
    le32(d.session_id) + seq![
        d.n_streams,
        encode_utf8(d.serial).len() as u8,
        encode_utf8(d.firmware).len() as u8,
    ] + encode_utf8(d.serial) + encode_utf8(d.firmware)
}

/// Whether device metadata can be written: its texts are short.
pub open spec fn device_ok(d: DeviceMetadataView) -> bool {
    short_text(d.serial) && short_text(d.firmware)
}

/// The device metadata that bytes spell, if they spell any.
pub open spec fn parse_device(b: Seq<u8>) -> Option<DeviceMetadataView> {
    if b.len() < 7 || b.len() != 7 + b[5] + b[6] {
        None
    } else {
        match (text_of_bytes(b.subrange(7, 7 + b[5])), text_of_bytes(b.skip(7 + b[5]))) {
            (Some(serial), Some(firmware)) => Some(
                DeviceMetadataView {
                    serial,
                    firmware,
                    session_id: from_le32(b.subrange(0, 4)),
                    n_streams: b[4],
                },
            ),
            _ => None,
        }
    }
}

/// The bytes of stream metadata.
pub open spec fn stream_bytes(m: StreamMetadataView) -> Seq<u8> {
    seq![m.stream_id, m.n_columns] + le16(m.sample_size) + le32(m.total_samples) + counted_text(
        m.name,
    )
}

/// Whether stream metadata can be written: its name is short.
pub open spec fn stream_ok(m: StreamMetadataView) -> bool {
    short_text(m.name)
}

/// The stream metadata that bytes spell, if they spell any.
pub open spec fn parse_stream(b: Seq<u8>) -> Option<StreamMetadataView> {
    if b.len() < 9 || b.len() != 9 + b[8] {
        None
    } else {
        match text_of_bytes(b.skip(9)) {
            Some(name) => Some(
                StreamMetadataView {
                    stream_id: b[0],
                    name,
                    sample_size: from_le16(b.subrange(2, 4)),
                    n_columns: b[1],
                    total_samples: from_le32(b.subrange(4, 8)),
                },
            ),
            None => None,
        }
    }
}

/// The bytes of segment metadata.
pub open spec fn segment_bytes(m: SegmentMetadataView) -> Seq<u8> {
    seq![
        m.stream_id,
        m.filter_type,
        m.time_ref_epoch,
        encode_utf8(m.time_ref_serial).len() as u8,
    ] + le32(m.sampling_rate) + le32(m.decimation) + le32(m.filter_cutoff) + le32(m.start_time)
        + le32(m.sample_n_offset) + encode_utf8(m.time_ref_serial)
}

/// Whether segment metadata can be written: its text is short.
pub open spec fn segment_ok(m: SegmentMetadataView) -> bool {
    short_text(m.time_ref_serial)
}

/// The segment metadata that bytes spell, if they spell any.
pub open spec fn parse_segment(b: Seq<u8>) -> Option<SegmentMetadataView> {
    if b.len() < 24 || b.len() != 24 + b[3] {
        None
    } else {
        match text_of_bytes(b.skip(24)) {
            Some(serial) => Some(
                SegmentMetadataView {
                    stream_id: b[0],
                    sampling_rate: from_le32(b.subrange(4, 8)),
                    decimation: from_le32(b.subrange(8, 12)),
                    filter_cutoff: from_le32(b.subrange(12, 16)),
                    filter_type: b[1],
                    time_ref_epoch: b[2],
                    time_ref_serial: serial,
                    start_time: from_le32(b.subrange(16, 20)),
                    sample_n_offset: from_le32(b.subrange(20, 24)),
                },
            ),
            None => None,
        }
    }
}

/// The bytes of column metadata.
pub open spec fn column_bytes(m: ColumnMetadataView) -> Seq<u8> {
    seq![
        m.stream_id,
        m.index,
        m.data_type.spec_code(),
        encode_utf8(m.name).len() as u8,
        encode_utf8(m.units).len() as u8,
        encode_utf8(m.description).len() as u8,
    ] + encode_utf8(m.name) + encode_utf8(m.units) + encode_utf8(m.description)
}

/// Whether column metadata can be written: its texts are short.
pub open spec fn column_ok(m: ColumnMetadataView) -> bool {
    short_text(m.name) && short_text(m.units) && short_text(m.description)
}

/// The column metadata that bytes spell, if they spell any.
pub open spec fn parse_column(b: Seq<u8>) -> Option<ColumnMetadataView> {
    if b.len() < 6 || b.len() != 6 + b[3] + b[4] + b[5] {
        None
    } else {
        match (
            DataType::spec_from_code(b[2]),
            text_of_bytes(b.subrange(6, 6 + b[3])),
            text_of_bytes(b.subrange(6 + b[3], 6 + b[3] + b[4])),
            text_of_bytes(b.skip(6 + b[3] + b[4])),
        ) {
            (Some(data_type), Some(name), Some(units), Some(description)) => Some(
                ColumnMetadataView {
                    stream_id: b[0],
                    index: b[1],
                    name,
                    units,
                    description,
                    data_type,
                },
            ),
            _ => None,
        }
    }
}

/// The type byte of a payload.
pub open spec fn payload_type(p: PayloadView) -> u8 {
    match p {
        PayloadView::StreamData(_) => TYPE_STREAM_DATA,
        PayloadView::StreamMetadata(_) => TYPE_STREAM_METADATA,
        PayloadView::SegmentMetadata(_) => TYPE_SEGMENT_METADATA,
        PayloadView::ColumnMetadata(_) => TYPE_COLUMN_METADATA,
        PayloadView::DeviceMetadata(_) => TYPE_DEVICE_METADATA,
        PayloadView::RpcRequest(_) => TYPE_RPC_REQUEST,
        PayloadView::RpcReply(_) => TYPE_RPC_REPLY,
        PayloadView::RpcError(_) => TYPE_RPC_ERROR,
        PayloadView::Heartbeat(_) => TYPE_HEARTBEAT,
        PayloadView::LogMessage(_) => TYPE_LOG_MESSAGE,
        PayloadView::Timebase(_) => TYPE_TIMEBASE,
        PayloadView::Other { type_id, bytes } => type_id,
    }
}

/// The bytes of a payload.
pub open spec fn payload_bytes(p: PayloadView) -> Seq<u8> {
    match p {
        PayloadView::StreamData(d) => stream_data_bytes(d),
        PayloadView::StreamMetadata(m) => stream_bytes(m),
        PayloadView::SegmentMetadata(m) => segment_bytes(m),
        PayloadView::ColumnMetadata(m) => column_bytes(m),
        PayloadView::DeviceMetadata(m) => device_bytes(m),
        PayloadView::RpcRequest(r) => request_bytes(r),
        PayloadView::RpcReply(r) => reply_bytes(r),
        PayloadView::RpcError(e) => error_bytes(e),
        PayloadView::Heartbeat(b) => b,
        PayloadView::LogMessage(b) => b,
        PayloadView::Timebase(b) => b,
        PayloadView::Other { type_id, bytes } => bytes,
    }
}

/// Whether a payload can be written so that reading gives it back: its texts
/// fit their length bytes, and what it holds as unknown is unknown.
pub open spec fn payload_ok(p: PayloadView) -> bool {
    match p {
        PayloadView::StreamMetadata(m) => stream_ok(m),
        PayloadView::SegmentMetadata(m) => segment_ok(m),
        PayloadView::ColumnMetadata(m) => column_ok(m),
        PayloadView::DeviceMetadata(m) => device_ok(m),
        PayloadView::RpcRequest(r) => request_ok(r),
        PayloadView::RpcError(e) => e.error.canonical(),
        PayloadView::Other { type_id, bytes } => !known_type(type_id),
        _ => true,
    }
}

/// The payload that bytes of the given type spell, if they spell one. Bytes
/// of an unknown type are kept as they are.
pub open spec fn parse_payload(type_id: u8, b: Seq<u8>) -> Option<PayloadView> {
    if type_id == TYPE_STREAM_DATA {
        match parse_stream_data(b) {
            Some(d) => Some(PayloadView::StreamData(d)),
            None => None,
        }
    } else if type_id == TYPE_STREAM_METADATA {
        match parse_stream(b) {
            Some(m) => Some(PayloadView::StreamMetadata(m)),
            None => None,
        }
    } else if type_id == TYPE_SEGMENT_METADATA {
        match parse_segment(b) {
            Some(m) => Some(PayloadView::SegmentMetadata(m)),
            None => None,
        }
    } else if type_id == TYPE_COLUMN_METADATA {
        match parse_column(b) {
            Some(m) => Some(PayloadView::ColumnMetadata(m)),
            None => None,
        }
    } else if type_id == TYPE_DEVICE_METADATA {
        match parse_device(b) {
            Some(m) => Some(PayloadView::DeviceMetadata(m)),
            None => None,
        }
    } else if type_id == TYPE_RPC_REQUEST {
        match parse_request(b) {
            Some(r) => Some(PayloadView::RpcRequest(r)),
            None => None,
        }
    } else if type_id == TYPE_RPC_REPLY {
        match parse_reply(b) {
            Some(r) => Some(PayloadView::RpcReply(r)),
            None => None,
        }
    } else if type_id == TYPE_RPC_ERROR {
        match parse_error(b) {
            Some(e) => Some(PayloadView::RpcError(e)),
            None => None,
        }
    } else if type_id == TYPE_HEARTBEAT {
        Some(PayloadView::Heartbeat(b))
    } else if type_id == TYPE_LOG_MESSAGE {
        Some(PayloadView::LogMessage(b))
    } else if type_id == TYPE_TIMEBASE {
        Some(PayloadView::Timebase(b))
    } else {
        Some(PayloadView::Other { type_id, bytes: b })
    }
}

/// Reading the bytes of stream data gives the stream data back.
pub proof fn lemma_stream_data_round_trip(d: StreamDataView)
    ensures
        parse_stream_data(stream_data_bytes(d)) == Some(d),
{
    let b = stream_data_bytes(d);
    lemma_le32_round_trip(d.first_sample_n);
    assert(b.subrange(1, 5) =~= le32(d.first_sample_n));
    assert(b.skip(5) =~= d.data);
}

/// Reading the bytes of stream metadata with a short name gives it back.
pub proof fn lemma_stream_round_trip(m: StreamMetadataView)
    requires
        stream_ok(m),
    ensures
        parse_stream(stream_bytes(m)) == Some(m),
{
    let b = stream_bytes(m);
    lemma_le16_round_trip(m.sample_size);
    lemma_le32_round_trip(m.total_samples);
    lemma_text_round_trip(m.name);
    assert(b.subrange(2, 4) =~= le16(m.sample_size));
    assert(b.subrange(4, 8) =~= le32(m.total_samples));
    assert(b.skip(9) =~= encode_utf8(m.name));
}

/// Reading the bytes of segment metadata with a short text gives it back.
pub proof fn lemma_segment_round_trip(m: SegmentMetadataView)
    requires
        segment_ok(m),
    ensures
        parse_segment(segment_bytes(m)) == Some(m),
{
    let b = segment_bytes(m);
    lemma_le32_round_trip(m.sampling_rate);
    lemma_le32_round_trip(m.decimation);
    lemma_le32_round_trip(m.filter_cutoff);
    lemma_le32_round_trip(m.start_time);
    lemma_le32_round_trip(m.sample_n_offset);
    lemma_text_round_trip(m.time_ref_serial);
    assert(b.subrange(4, 8) =~= le32(m.sampling_rate));
    assert(b.subrange(8, 12) =~= le32(m.decimation));
    assert(b.subrange(12, 16) =~= le32(m.filter_cutoff));
    assert(b.subrange(16, 20) =~= le32(m.start_time));
    assert(b.subrange(20, 24) =~= le32(m.sample_n_offset));
    assert(b.skip(24) =~= encode_utf8(m.time_ref_serial));
}

/// Reading the bytes of column metadata with short texts gives it back.
pub proof fn lemma_column_round_trip(m: ColumnMetadataView)
    requires
        column_ok(m),
    ensures
        parse_column(column_bytes(m)) == Some(m),
{
    let b = column_bytes(m);
    lemma_text_round_trip(m.name);
    lemma_text_round_trip(m.units);
    lemma_text_round_trip(m.description);
    crate::meta::lemma_data_type_code(m.data_type);
    let n = encode_utf8(m.name).len() as int;
    let u = encode_utf8(m.units).len() as int;
    assert(b.subrange(6, 6 + n) =~= encode_utf8(m.name));
    assert(b.subrange(6 + n, 6 + n + u) =~= encode_utf8(m.units));
    assert(b.skip(6 + n + u) =~= encode_utf8(m.description));
}

/// Reading the bytes of device metadata with short texts gives it back.
pub proof fn lemma_device_round_trip(m: DeviceMetadataView)
    requires
        device_ok(m),
    ensures
        parse_device(device_bytes(m)) == Some(m),
{
    let b = device_bytes(m);
    lemma_le32_round_trip(m.session_id);
    lemma_text_round_trip(m.serial);
    lemma_text_round_trip(m.firmware);
    let n = encode_utf8(m.serial).len() as int;
    assert(b.subrange(0, 4) =~= le32(m.session_id));
    assert(b.subrange(7, 7 + n) =~= encode_utf8(m.serial));
    assert(b.skip(7 + n) =~= encode_utf8(m.firmware));
}

/// Reading the bytes of an RPC request that can be written gives it back.
pub proof fn lemma_request_round_trip(r: RpcRequestView)
    requires
        request_ok(r),
    ensures
        parse_request(request_bytes(r)) == Some(r),
{
    let b = request_bytes(r);
    lemma_le16_round_trip(r.id);
    assert(b.subrange(0, 2) =~= le16(r.id));
    match r.method {
        RpcMethodView::Id(id) => {
            lemma_le16_round_trip(id);
            assert(b.subrange(3, 5) =~= le16(id));
            assert(b.skip(5) =~= r.arg);
        },
        RpcMethodView::Name(name) => {
            lemma_text_round_trip(name);
            let n = encode_utf8(name).len() as int;
            assert(b[2] == n as u8);
            assert(b.subrange(3, 3 + n) =~= encode_utf8(name));
            assert(b.skip(3 + n) =~= r.arg);
        },
    }
}

/// Reading the bytes of an RPC reply gives it back.
pub proof fn lemma_reply_round_trip(r: RpcReplyView)
    ensures
        parse_reply(reply_bytes(r)) == Some(r),
{
    let b = reply_bytes(r);
    lemma_le16_round_trip(r.id);
    assert(b.subrange(0, 2) =~= le16(r.id));
    assert(b.skip(2) =~= r.reply);
}

/// Reading the bytes of an RPC error with a canonical code gives it back.
pub proof fn lemma_error_round_trip(e: RpcErrorView)
    requires
        e.error.canonical(),
    ensures
        parse_error(error_bytes(e)) == Some(e),
{
    let b = error_bytes(e);
    lemma_le16_round_trip(e.id);
    lemma_le16_round_trip(e.error.spec_code());
    lemma_text_round_trip(e.message);
    assert(b.subrange(0, 2) =~= le16(e.id));
    assert(b.subrange(2, 4) =~= le16(e.error.spec_code()));
    assert(b.skip(4) =~= encode_utf8(e.message));
}

/// Reading the bytes of a payload that can be written gives the payload back.
pub proof fn lemma_payload_round_trip(p: PayloadView)
    requires
        payload_ok(p),
    ensures
        parse_payload(payload_type(p), payload_bytes(p)) == Some(p),
{
    match p {
        PayloadView::StreamData(d) => lemma_stream_data_round_trip(d),
        PayloadView::StreamMetadata(m) => lemma_stream_round_trip(m),
        PayloadView::SegmentMetadata(m) => lemma_segment_round_trip(m),
        PayloadView::ColumnMetadata(m) => lemma_column_round_trip(m),
        PayloadView::DeviceMetadata(m) => lemma_device_round_trip(m),
        PayloadView::RpcRequest(r) => lemma_request_round_trip(r),
        PayloadView::RpcReply(r) => lemma_reply_round_trip(r),
        PayloadView::RpcError(e) => lemma_error_round_trip(e),
        PayloadView::Heartbeat(_) => {},
        PayloadView::LogMessage(_) => {},
        PayloadView::Timebase(_) => {},
        PayloadView::Other { type_id, bytes } => {},
    }
}

/// A payload that bytes spell can be written, and is written as those bytes.
pub proof fn lemma_payload_is_canonical(type_id: u8, b: Seq<u8>)
    requires
        parse_payload(type_id, b) is Some,
    ensures
        payload_ok(parse_payload(type_id, b)->Some_0),
        payload_type(parse_payload(type_id, b)->Some_0) == type_id,
        payload_bytes(parse_payload(type_id, b)->Some_0) == b,
{
    if type_id == TYPE_STREAM_DATA {
        lemma_le32_bytes(b.subrange(1, 5));
        assert(seq![b[0]] + b.subrange(1, 5) + b.skip(5) =~= b);
    } else if type_id == TYPE_STREAM_METADATA {
        lemma_stream_is_canonical(b);
    } else if type_id == TYPE_SEGMENT_METADATA {
        lemma_segment_is_canonical(b);
    } else if type_id == TYPE_COLUMN_METADATA {
        lemma_column_is_canonical(b);
    } else if type_id == TYPE_DEVICE_METADATA {
        lemma_device_is_canonical(b);
    } else if type_id == TYPE_RPC_REQUEST {
        lemma_request_is_canonical(b);
    } else if type_id == TYPE_RPC_REPLY {
        lemma_le16_bytes(b.subrange(0, 2));
        assert(b.subrange(0, 2) + b.skip(2) =~= b);
    } else if type_id == TYPE_RPC_ERROR {
        lemma_le16_bytes(b.subrange(0, 2));
        lemma_le16_bytes(b.subrange(2, 4));
        lemma_bytes_of_text(b.skip(4));
        assert(b.subrange(0, 2) + b.subrange(2, 4) + b.skip(4) =~= b);
    }
}

/// Stream metadata that bytes spell is written as those bytes.
pub proof fn lemma_stream_is_canonical(b: Seq<u8>)
    requires
        parse_stream(b) is Some,
    ensures
        stream_ok(parse_stream(b)->Some_0),
        stream_bytes(parse_stream(b)->Some_0) == b,
{
    let m = parse_stream(b)->Some_0;
    lemma_le16_bytes(b.subrange(2, 4));
    lemma_le32_bytes(b.subrange(4, 8));
    lemma_bytes_of_text(b.skip(9));
    assert(encode_utf8(m.name).len() == b[8]);
    assert(seq![b[0], b[1]] + b.subrange(2, 4) + b.subrange(4, 8) + (seq![b[8]] + b.skip(9))
        =~= b);
}

/// Segment metadata that bytes spell is written as those bytes.
pub proof fn lemma_segment_is_canonical(b: Seq<u8>)
    requires
        parse_segment(b) is Some,
    ensures
        segment_ok(parse_segment(b)->Some_0),
        segment_bytes(parse_segment(b)->Some_0) == b,
{
    let m = parse_segment(b)->Some_0;
    lemma_le32_bytes(b.subrange(4, 8));
    lemma_le32_bytes(b.subrange(8, 12));
    lemma_le32_bytes(b.subrange(12, 16));
    lemma_le32_bytes(b.subrange(16, 20));
    lemma_le32_bytes(b.subrange(20, 24));
    lemma_bytes_of_text(b.skip(24));
    assert(encode_utf8(m.time_ref_serial).len() == b[3]);
    assert(seq![b[0], b[1], b[2], b[3]] + b.subrange(4, 8) + b.subrange(8, 12) + b.subrange(
        12,
        16,
    ) + b.subrange(16, 20) + b.subrange(20, 24) + b.skip(24) =~= b);
}

/// Column metadata that bytes spell is written as those bytes.
pub proof fn lemma_column_is_canonical(b: Seq<u8>)
    requires
        parse_column(b) is Some,
    ensures
        column_ok(parse_column(b)->Some_0),
        column_bytes(parse_column(b)->Some_0) == b,
{
    let m = parse_column(b)->Some_0;
    let n = b[3] as int;
    let u = b[4] as int;
    lemma_bytes_of_text(b.subrange(6, 6 + n));
    lemma_bytes_of_text(b.subrange(6 + n, 6 + n + u));
    lemma_bytes_of_text(b.skip(6 + n + u));
    crate::meta::lemma_code_of_data_type(b[2]);
    assert(seq![b[0], b[1], b[2], b[3], b[4], b[5]] + b.subrange(6, 6 + n) + b.subrange(
        6 + n,
        6 + n + u,
    ) + b.skip(6 + n + u) =~= b);
}

/// Device metadata that bytes spell is written as those bytes.
pub proof fn lemma_device_is_canonical(b: Seq<u8>)
    requires
        parse_device(b) is Some,
    ensures
        device_ok(parse_device(b)->Some_0),
        device_bytes(parse_device(b)->Some_0) == b,
{
    let n = b[5] as int;
    lemma_le32_bytes(b.subrange(0, 4));
    lemma_bytes_of_text(b.subrange(7, 7 + n));
    lemma_bytes_of_text(b.skip(7 + n));
    assert(b.subrange(0, 4) + seq![b[4], b[5], b[6]] + b.subrange(7, 7 + n) + b.skip(7 + n)
        =~= b);
}

/// An RPC request that bytes spell is written as those bytes.
pub proof fn lemma_request_is_canonical(b: Seq<u8>)
    requires
        parse_request(b) is Some,
    ensures
        request_ok(parse_request(b)->Some_0),
        request_bytes(parse_request(b)->Some_0) == b,
{
    lemma_le16_bytes(b.subrange(0, 2));
    if b[2] == METHOD_BY_ID {
        lemma_le16_bytes(b.subrange(3, 5));
        assert(b.subrange(0, 2) + (seq![METHOD_BY_ID] + b.subrange(3, 5)) + b.skip(5) =~= b);
    } else {
        let n = b[2] as int;
        lemma_bytes_of_text(b.subrange(3, 3 + n));
        assert(b.subrange(0, 2) + (seq![b[2]] + b.subrange(3, 3 + n)) + b.skip(3 + n) =~= b);
    }
}

/// Whether a text fits a field that a length byte announces.
fn is_short_text(text: &String) -> (r: bool)
    ensures
        r == short_text(text@),
{
    text_len(text.as_str()) <= MAX_TEXT
}

/// Appends the length of a short text.
fn push_text_len(out: &mut Vec<u8>, text: &String)
    requires
        short_text(text@),
    ensures
        final(out)@ == old(out)@.push(encode_utf8(text@).len() as u8),
{
    out.push(text_len(text.as_str()) as u8);
}

fn encode_request(r: &RpcRequest) -> (out: Option<Vec<u8>>)
    ensures
        request_ok(r@) ==> out is Some && out->Some_0@ == request_bytes(r@),
        !request_ok(r@) ==> out is None,
{
    let mut out: Vec<u8> = Vec::new();
    push_le16(&mut out, r.id);
    match &r.method {
        RpcMethod::Id(id) => {
            out.push(METHOD_BY_ID);
            push_le16(&mut out, *id);
        },
        RpcMethod::Name(name) => {
            let n = text_len(name.as_str());
            if n > MAX_METHOD_NAME {
                return None;
            }
            out.push(n as u8);
            push_text_bytes(&mut out, name.as_str());
        },
    }
    push_bytes(&mut out, &r.arg, 0, r.arg.len());
    proof {
        assert(r.arg@.subrange(0, r.arg.len() as int) =~= r.arg@);
        assert(out@ =~= request_bytes(r@));
    }
    Some(out)
}

fn decode_request(b: &Vec<u8>) -> (out: Option<RpcRequest>)
    ensures
        match parse_request(b@) {
            Some(r) => out is Some && out->Some_0@ == r,
            None => out is None,
        },
{
    if b.len() < 3 {
        return None;
    }
    let id = read_le16(b, 0);
    let tag = b[2];
    if tag == METHOD_BY_ID {
        if b.len() < 5 {
            return None;
        }
        let method = read_le16(b, 3);
        let arg = copy_bytes(b, 5, b.len());
        proof {
            assert(b@.subrange(5, b.len() as int) =~= b@.skip(5));
        }
        return Some(RpcRequest { id, method: RpcMethod::Id(method), arg });
    }
    if tag > METHOD_BY_ID || b.len() < 3 + tag as usize {
        return None;
    }
    let end = 3 + tag as usize;
    match read_text(b, 3, end) {
        Some(name) => {
            let arg = copy_bytes(b, end, b.len());
            proof {
                assert(b@.subrange(end as int, b.len() as int) =~= b@.skip(end as int));
            }
            Some(RpcRequest { id, method: RpcMethod::Name(name), arg })
        },
        None => None,
    }
}

fn encode_reply(r: &RpcReply) -> (out: Vec<u8>)
    ensures
        out@ == reply_bytes(r@),
{
    let mut out: Vec<u8> = Vec::new();
    push_le16(&mut out, r.id);
    push_bytes(&mut out, &r.reply, 0, r.reply.len());
    proof {
        assert(r.reply@.subrange(0, r.reply.len() as int) =~= r.reply@);
        assert(out@ =~= reply_bytes(r@));
    }
    out
}

fn decode_reply(b: &Vec<u8>) -> (out: Option<RpcReply>)
    ensures
        match parse_reply(b@) {
            Some(r) => out is Some && out->Some_0@ == r,
            None => out is None,
        },
{
    if b.len() < 2 {
        return None;
    }
    let id = read_le16(b, 0);
    let reply = copy_bytes(b, 2, b.len());
    proof {
        assert(b@.subrange(2, b.len() as int) =~= b@.skip(2));
    }
    Some(RpcReply { id, reply })
}

fn encode_error(e: &RpcError) -> (out: Option<Vec<u8>>)
    ensures
        e@.error.canonical() ==> out is Some && out->Some_0@ == error_bytes(e@),
        !e@.error.canonical() ==> out is None,
{
    if !e.error.is_canonical() {
        return None;
    }
    let mut out: Vec<u8> = Vec::new();
    push_le16(&mut out, e.id);
    push_le16(&mut out, e.error.code());
    push_text_bytes(&mut out, e.message.as_str());
    proof {
        assert(out@ =~= error_bytes(e@));
    }
    Some(out)
}

fn decode_error(b: &Vec<u8>) -> (out: Option<RpcError>)
    ensures
        match parse_error(b@) {
            Some(e) => out is Some && out->Some_0@ == e,
            None => out is None,
        },
{
    if b.len() < 4 {
        return None;
    }
    let id = read_le16(b, 0);
    let code = read_le16(b, 2);
    proof {
        assert(b@.subrange(4, b.len() as int) =~= b@.skip(4));
    }
    match read_text(b, 4, b.len()) {
        Some(message) => Some(RpcError { id, error: RpcErrorCode::from_code(code), message }),
        None => None,
    }
}

fn encode_stream_data(d: &StreamData) -> (out: Vec<u8>)
    ensures
        out@ == stream_data_bytes(d@),
{
    let mut out: Vec<u8> = Vec::new();
    out.push(d.stream_id);
    push_le32(&mut out, d.first_sample_n);
    push_bytes(&mut out, &d.data, 0, d.data.len());
    proof {
        assert(d.data@.subrange(0, d.data.len() as int) =~= d.data@);
        assert(out@ =~= stream_data_bytes(d@));
    }
    out
}

fn decode_stream_data(b: &Vec<u8>) -> (out: Option<StreamData>)
    ensures
        match parse_stream_data(b@) {
            Some(d) => out is Some && out->Some_0@ == d,
            None => out is None,
        },
{
    if b.len() < 5 {
        return None;
    }
    let stream_id = b[0];
    let first_sample_n = read_le32(b, 1);
    let data = copy_bytes(b, 5, b.len());
    proof {
        assert(b@.subrange(5, b.len() as int) =~= b@.skip(5));
    }
    Some(StreamData { stream_id, first_sample_n, data })
}

fn encode_device(m: &DeviceMetadata) -> (out: Option<Vec<u8>>)
    ensures
        device_ok(m@) ==> out is Some && out->Some_0@ == device_bytes(m@),
        !device_ok(m@) ==> out is None,
{
    if !is_short_text(&m.serial) || !is_short_text(&m.firmware) {
        return None;
    }
    let mut out: Vec<u8> = Vec::new();
    push_le32(&mut out, m.session_id);
    out.push(m.n_streams);
    push_text_len(&mut out, &m.serial);
    push_text_len(&mut out, &m.firmware);
    push_text_bytes(&mut out, m.serial.as_str());
    push_text_bytes(&mut out, m.firmware.as_str());
    proof {
        assert(out@ =~= device_bytes(m@));
    }
    Some(out)
}

fn decode_device(b: &Vec<u8>) -> (out: Option<DeviceMetadata>)
    ensures
        match parse_device(b@) {
            Some(m) => out is Some && out->Some_0@ == m,
            None => out is None,
        },
{
    if b.len() < 7 {
        return None;
    }
    let serial_len = b[5] as usize;
    let firmware_len = b[6] as usize;
    if b.len() != 7 + serial_len + firmware_len {
        return None;
    }
    let session_id = read_le32(b, 0);
    let n_streams = b[4];
    proof {
        assert(b@.subrange(7 + serial_len, b.len() as int) =~= b@.skip(7 + serial_len));
    }
    let serial = read_text(b, 7, 7 + serial_len);
    let firmware = read_text(b, 7 + serial_len, b.len());
    match (serial, firmware) {
        (Some(serial), Some(firmware)) => Some(
            DeviceMetadata { serial, firmware, session_id, n_streams },
        ),
        _ => None,
    }
}

fn encode_stream(m: &StreamMetadata) -> (out: Option<Vec<u8>>)
    ensures
        stream_ok(m@) ==> out is Some && out->Some_0@ == stream_bytes(m@),
        !stream_ok(m@) ==> out is None,
{
    if !is_short_text(&m.name) {
        return None;
    }
    let mut out: Vec<u8> = Vec::new();
    out.push(m.stream_id);
    out.push(m.n_columns);
    push_le16(&mut out, m.sample_size);
    push_le32(&mut out, m.total_samples);
    push_text_len(&mut out, &m.name);
    push_text_bytes(&mut out, m.name.as_str());
    proof {
        assert(out@ =~= stream_bytes(m@));
    }
    Some(out)
}

fn decode_stream(b: &Vec<u8>) -> (out: Option<StreamMetadata>)
    ensures
        match parse_stream(b@) {
            Some(m) => out is Some && out->Some_0@ == m,
            None => out is None,
        },
{
    if b.len() < 9 {
        return None;
    }
    if b.len() != 9 + b[8] as usize {
        return None;
    }
    let stream_id = b[0];
    let n_columns = b[1];
    let sample_size = read_le16(b, 2);
    let total_samples = read_le32(b, 4);
    proof {
        assert(b@.subrange(9, b.len() as int) =~= b@.skip(9));
    }
    match read_text(b, 9, b.len()) {
        Some(name) => Some(StreamMetadata { stream_id, name, sample_size, n_columns, total_samples }),
        None => None,
    }
}

fn encode_segment(m: &SegmentMetadata) -> (out: Option<Vec<u8>>)
    ensures
        segment_ok(m@) ==> out is Some && out->Some_0@ == segment_bytes(m@),
        !segment_ok(m@) ==> out is None,
{
    if !is_short_text(&m.time_ref_serial) {
        return None;
    }
    let mut out: Vec<u8> = Vec::new();
    out.push(m.stream_id);
    out.push(m.filter_type);
    out.push(m.time_ref_epoch);
    push_text_len(&mut out, &m.time_ref_serial);
    push_le32(&mut out, m.sampling_rate);
    push_le32(&mut out, m.decimation);
    push_le32(&mut out, m.filter_cutoff);
    push_le32(&mut out, m.start_time);
    push_le32(&mut out, m.sample_n_offset);
    push_text_bytes(&mut out, m.time_ref_serial.as_str());
    proof {
        assert(out@ =~= segment_bytes(m@));
    }
    Some(out)
}

fn decode_segment(b: &Vec<u8>) -> (out: Option<SegmentMetadata>)
    ensures
        match parse_segment(b@) {
            Some(m) => out is Some && out->Some_0@ == m,
            None => out is None,
        },
{
    if b.len() < 24 {
        return None;
    }
    if b.len() != 24 + b[3] as usize {
        return None;
    }
    let stream_id = b[0];
    let filter_type = b[1];
    let time_ref_epoch = b[2];
    let sampling_rate = read_le32(b, 4);
    let decimation = read_le32(b, 8);
    let filter_cutoff = read_le32(b, 12);
    let start_time = read_le32(b, 16);
    let sample_n_offset = read_le32(b, 20);
    proof {
        assert(b@.subrange(24, b.len() as int) =~= b@.skip(24));
    }
    match read_text(b, 24, b.len()) {
        Some(time_ref_serial) => Some(
            SegmentMetadata {
                stream_id,
                sampling_rate,
                decimation,
                filter_cutoff,
                filter_type,
                time_ref_epoch,
                time_ref_serial,
                start_time,
                sample_n_offset,
            },
        ),
        None => None,
    }
}

fn encode_column(m: &ColumnMetadata) -> (out: Option<Vec<u8>>)
    ensures
        column_ok(m@) ==> out is Some && out->Some_0@ == column_bytes(m@),
        !column_ok(m@) ==> out is None,
{
    if !is_short_text(&m.name) || !is_short_text(&m.units) || !is_short_text(&m.description) {
        return None;
    }
    let mut out: Vec<u8> = Vec::new();
    out.push(m.stream_id);
    out.push(m.index);
    out.push(m.data_type.code());
    push_text_len(&mut out, &m.name);
    push_text_len(&mut out, &m.units);
    push_text_len(&mut out, &m.description);
    push_text_bytes(&mut out, m.name.as_str());
    push_text_bytes(&mut out, m.units.as_str());
    push_text_bytes(&mut out, m.description.as_str());
    proof {
        assert(out@ =~= column_bytes(m@));
    }
    Some(out)
}

fn decode_column(b: &Vec<u8>) -> (out: Option<ColumnMetadata>)
    ensures
        match parse_column(b@) {
            Some(m) => out is Some && out->Some_0@ == m,
            None => out is None,
        },
{
    if b.len() < 6 {
        return None;
    }
    let name_len = b[3] as usize;
    let units_len = b[4] as usize;
    let description_len = b[5] as usize;
    if b.len() != 6 + name_len + units_len + description_len {
        return None;
    }
    let stream_id = b[0];
    let index = b[1];
    let data_type = DataType::from_code(b[2]);
    proof {
        assert(b@.subrange(6 + name_len + units_len, b.len() as int) =~= b@.skip(
            6 + name_len + units_len,
        ));
    }
    let name = read_text(b, 6, 6 + name_len);
    let units = read_text(b, 6 + name_len, 6 + name_len + units_len);
    let description = read_text(b, 6 + name_len + units_len, b.len());
    match (data_type, name, units, description) {
        (Some(data_type), Some(name), Some(units), Some(description)) => Some(
            ColumnMetadata { stream_id, index, name, units, description, data_type },
        ),
        _ => None,
    }
}

impl Payload {
    /// The kind of traffic that the payload belongs to.
    pub fn traffic(&self) -> (t: Traffic)
        ensures
            t == traffic_of(self@),
    {
        match self {
            Payload::StreamData(_) => Traffic::Data,
            Payload::StreamMetadata(_) | Payload::SegmentMetadata(_) | Payload::ColumnMetadata(_)
            | Payload::DeviceMetadata(_) => Traffic::Metadata,
            Payload::Heartbeat(_) => Traffic::Heartbeat,
            _ => Traffic::Other,
        }
    }

    /// The type byte of the payload.
    pub fn type_id(&self) -> (t: u8)
        ensures
            t == payload_type(self@),
    {
        match self {
            Payload::StreamData(_) => TYPE_STREAM_DATA,
            Payload::StreamMetadata(_) => TYPE_STREAM_METADATA,
            Payload::SegmentMetadata(_) => TYPE_SEGMENT_METADATA,
            Payload::ColumnMetadata(_) => TYPE_COLUMN_METADATA,
            Payload::DeviceMetadata(_) => TYPE_DEVICE_METADATA,
            Payload::RpcRequest(_) => TYPE_RPC_REQUEST,
            Payload::RpcReply(_) => TYPE_RPC_REPLY,
            Payload::RpcError(_) => TYPE_RPC_ERROR,
            Payload::Heartbeat(_) => TYPE_HEARTBEAT,
            Payload::LogMessage(_) => TYPE_LOG_MESSAGE,
            Payload::Timebase(_) => TYPE_TIMEBASE,
            Payload::Other { type_id, bytes } => *type_id,
        }
    }

    /// The bytes of the payload, if it can be written so that reading gives
    /// it back.
    pub fn encode(&self) -> (out: Option<Vec<u8>>)
        ensures
            payload_ok(self@) ==> out is Some && out->Some_0@ == payload_bytes(self@),
            !payload_ok(self@) ==> out is None,
    {
        match self {
            Payload::StreamData(d) => Some(encode_stream_data(d)),
            Payload::StreamMetadata(m) => encode_stream(m),
            Payload::SegmentMetadata(m) => encode_segment(m),
            Payload::ColumnMetadata(m) => encode_column(m),
            Payload::DeviceMetadata(m) => encode_device(m),
            Payload::RpcRequest(r) => encode_request(r),
            Payload::RpcReply(r) => Some(encode_reply(r)),
            Payload::RpcError(e) => encode_error(e),
            Payload::Heartbeat(b) => Some(b.clone()),
            Payload::LogMessage(b) => Some(b.clone()),
            Payload::Timebase(b) => Some(b.clone()),
            Payload::Other { type_id, bytes } => {
                if is_known_type(*type_id) {
                    None
                } else {
                    Some(bytes.clone())
                }
            },
        }
    }

    /// The payload that bytes of the given type spell, if they spell one.
    pub fn decode(type_id: u8, bytes: Vec<u8>) -> (out: Option<Payload>)
        ensures
            match parse_payload(type_id, bytes@) {
                Some(p) => out is Some && out->Some_0@ == p,
                None => out is None,
            },
    {
        if type_id == TYPE_STREAM_DATA {
            match decode_stream_data(&bytes) {
                Some(d) => Some(Payload::StreamData(d)),
                None => None,
            }
        } else if type_id == TYPE_STREAM_METADATA {
            match decode_stream(&bytes) {
                Some(m) => Some(Payload::StreamMetadata(m)),
                None => None,
            }
        } else if type_id == TYPE_SEGMENT_METADATA {
            match decode_segment(&bytes) {
                Some(m) => Some(Payload::SegmentMetadata(m)),
                None => None,
            }
        } else if type_id == TYPE_COLUMN_METADATA {
            match decode_column(&bytes) {
                Some(m) => Some(Payload::ColumnMetadata(m)),
                None => None,
            }
        } else if type_id == TYPE_DEVICE_METADATA {
            match decode_device(&bytes) {
                Some(m) => Some(Payload::DeviceMetadata(m)),
                None => None,
            }
        } else if type_id == TYPE_RPC_REQUEST {
            match decode_request(&bytes) {
                Some(r) => Some(Payload::RpcRequest(r)),
                None => None,
            }
        } else if type_id == TYPE_RPC_REPLY {
            match decode_reply(&bytes) {
                Some(r) => Some(Payload::RpcReply(r)),
                None => None,
            }
        } else if type_id == TYPE_RPC_ERROR {
            match decode_error(&bytes) {
                Some(e) => Some(Payload::RpcError(e)),
                None => None,
            }
        } else if type_id == TYPE_HEARTBEAT {
            Some(Payload::Heartbeat(bytes))
        } else if type_id == TYPE_LOG_MESSAGE {
            Some(Payload::LogMessage(bytes))
        } else if type_id == TYPE_TIMEBASE {
            Some(Payload::Timebase(bytes))
        } else {
            Some(Payload::Other { type_id, bytes })
        }
    }
}

/// Whether a type byte stands for one of the known kinds of payload.
pub fn is_known_type(type_id: u8) -> (r: bool)
    ensures
        r == known_type(type_id),
{
    type_id == TYPE_RPC_REQUEST || type_id == TYPE_RPC_REPLY || type_id == TYPE_RPC_ERROR
        || type_id == TYPE_HEARTBEAT || type_id == TYPE_TIMEBASE || type_id == TYPE_LOG_MESSAGE
        || type_id == TYPE_STREAM_METADATA || type_id == TYPE_SEGMENT_METADATA || type_id
        == TYPE_COLUMN_METADATA || type_id == TYPE_DEVICE_METADATA || type_id == TYPE_STREAM_DATA
}

} // verus!
