//! What a device says about itself and its streams.
//!
//! Numbers that the device sends in floating point are kept as the bits it
//! sent: nothing here computes with them.

use vstd::prelude::*;

verus! {

/// The type of the values of a column, as sent on the wire.
#[derive(Clone, Copy, Debug, PartialEq, Eq, Structural)]
pub enum DataType {
    UInt8,
    UInt16,
    UInt32,
    UInt64,
    Int8,
    Int16,
    Int32,
    Int64,
    Float32,
    Float64,
}

/// The three kinds of buffer that column values are gathered in.
#[derive(Clone, Copy, Debug, PartialEq, Eq, Structural)]
pub enum BufferType {
    UInt,
    Int,
    Float,
}

impl DataType {
    /// Bytes that one value takes on the wire.
    pub open spec fn spec_size(self) -> nat {
        match self {
            DataType::UInt8 | DataType::Int8 => 1,
            DataType::UInt16 | DataType::Int16 => 2,
            DataType::UInt32 | DataType::Int32 | DataType::Float32 => 4,
            DataType::UInt64 | DataType::Int64 | DataType::Float64 => 8,
        }
    }

    /// The kind of buffer that values of this type widen to.
    pub open spec fn spec_buffer_type(self) -> BufferType {
        match self {
            DataType::UInt8 | DataType::UInt16 | DataType::UInt32 | DataType::UInt64 => {
                BufferType::UInt
            },
            DataType::Int8 | DataType::Int16 | DataType::Int32 | DataType::Int64 => BufferType::Int,
            DataType::Float32 | DataType::Float64 => BufferType::Float,
        }
    }

    /// The byte that names this type on the wire: the size in the high
    /// nibble, and in the low nibble 0 for unsigned, 1 for signed, 2 for
    /// floating point.
    pub open spec fn spec_code(self) -> u8 {
        match self {
            DataType::UInt8 => 0x10,
            DataType::Int8 => 0x11,
            DataType::UInt16 => 0x20,
            DataType::Int16 => 0x21,
            DataType::UInt32 => 0x40,
            DataType::Int32 => 0x41,
            DataType::Float32 => 0x42,
            DataType::UInt64 => 0x80,
            DataType::Int64 => 0x81,
            DataType::Float64 => 0x82,
        }
    }

    /// The type that a wire byte names, if any.
    pub open spec fn spec_from_code(code: u8) -> Option<DataType> {
        if code == 0x10 {
            Some(DataType::UInt8)
        } else if code == 0x11 {
            Some(DataType::Int8)
        } else if code == 0x20 {
            Some(DataType::UInt16)
        } else if code == 0x21 {
            Some(DataType::Int16)
        } else if code == 0x40 {
            Some(DataType::UInt32)
        } else if code == 0x41 {
            Some(DataType::Int32)
        } else if code == 0x42 {
            Some(DataType::Float32)
        } else if code == 0x80 {
            Some(DataType::UInt64)
        } else if code == 0x81 {
            Some(DataType::Int64)
        } else if code == 0x82 {
            Some(DataType::Float64)
        } else {
            None
        }
    }

    /// Bytes that one value takes on the wire.
    pub fn size(self) -> (n: usize)
        ensures
            n == self.spec_size(),
    {
        match self {
            DataType::UInt8 | DataType::Int8 => 1,
            DataType::UInt16 | DataType::Int16 => 2,
            DataType::UInt32 | DataType::Int32 | DataType::Float32 => 4,
            DataType::UInt64 | DataType::Int64 | DataType::Float64 => 8,
        }
    }

    /// The kind of buffer that values of this type widen to.
    #[verifier::when_used_as_spec(spec_buffer_type)]
    pub fn buffer_type(self) -> (b: BufferType)
        ensures
            b == self.spec_buffer_type(),
    {
        match self {
            DataType::UInt8 | DataType::UInt16 | DataType::UInt32 | DataType::UInt64 => {
                BufferType::UInt
            },
            DataType::Int8 | DataType::Int16 | DataType::Int32 | DataType::Int64 => BufferType::Int,
            DataType::Float32 | DataType::Float64 => BufferType::Float,
        }
    }

    /// The byte that names this type on the wire.
    #[verifier::when_used_as_spec(spec_code)]
    pub fn code(self) -> (c: u8)
        ensures
            c == self.spec_code(),
    {
        match self {
            DataType::UInt8 => 0x10,
            DataType::Int8 => 0x11,
            DataType::UInt16 => 0x20,
            DataType::Int16 => 0x21,
            DataType::UInt32 => 0x40,
            DataType::Int32 => 0x41,
            DataType::Float32 => 0x42,
            DataType::UInt64 => 0x80,
            DataType::Int64 => 0x81,
            DataType::Float64 => 0x82,
        }
    }

    /// The type that a wire byte names, if any.
    pub fn from_code(code: u8) -> (t: Option<DataType>)
        ensures
            t == DataType::spec_from_code(code),
    {
        if code == 0x10 {
            Some(DataType::UInt8)
        } else if code == 0x11 {
            Some(DataType::Int8)
        } else if code == 0x20 {
            Some(DataType::UInt16)
        } else if code == 0x21 {
            Some(DataType::Int16)
        } else if code == 0x40 {
            Some(DataType::UInt32)
        } else if code == 0x41 {
            Some(DataType::Int32)
        } else if code == 0x42 {
            Some(DataType::Float32)
        } else if code == 0x80 {
            Some(DataType::UInt64)
        } else if code == 0x81 {
            Some(DataType::Int64)
        } else if code == 0x82 {
            Some(DataType::Float64)
        } else {
            None
        }
    }
}

/// Reading the wire byte of a type gives the type back.
pub proof fn lemma_data_type_code(t: DataType)
    ensures
        DataType::spec_from_code(t.spec_code()) == Some(t),
{
}

/// The type that a wire byte names has that byte as its wire byte.
pub proof fn lemma_code_of_data_type(code: u8)
    requires
        DataType::spec_from_code(code) is Some,
    ensures
        DataType::spec_from_code(code)->Some_0.spec_code() == code,
{
}

/// A device, as it describes itself.
#[derive(Debug)]
pub struct DeviceMetadata {
    pub serial: String,
    pub firmware: String,
    /// Changes whenever the device restarts.
    pub session_id: u32,
    pub n_streams: u8,
}

/// What a `DeviceMetadata` holds.
pub struct DeviceMetadataView {
    pub serial: Seq<char>,
    pub firmware: Seq<char>,
    pub session_id: u32,
    pub n_streams: u8,
}

impl View for DeviceMetadata {
    type V = DeviceMetadataView;

    open spec fn view(&self) -> DeviceMetadataView {
        DeviceMetadataView {
            serial: self.serial@,
            firmware: self.firmware@,
            session_id: self.session_id,
            n_streams: self.n_streams,
        }
    }
}

impl Clone for DeviceMetadata {
    fn clone(&self) -> (r: Self)
        ensures
            r@ == self@,
    {
        DeviceMetadata {
            serial: self.serial.clone(),
            firmware: self.firmware.clone(),
            session_id: self.session_id,
            n_streams: self.n_streams,
        }
    }
}

/// A stream of samples, as the device describes it.
#[derive(Debug)]
pub struct StreamMetadata {
    pub stream_id: u8,
    pub name: String,
    /// Bytes that one sample takes on the wire.
    pub sample_size: u16,
    pub n_columns: u8,
    pub total_samples: u32,
}

/// What a `StreamMetadata` holds.
pub struct StreamMetadataView {
    pub stream_id: u8,
    pub name: Seq<char>,
    pub sample_size: u16,
    pub n_columns: u8,
    pub total_samples: u32,
}

impl View for StreamMetadata {
    type V = StreamMetadataView;

    open spec fn view(&self) -> StreamMetadataView {
        StreamMetadataView {
            stream_id: self.stream_id,
            name: self.name@,
            sample_size: self.sample_size,
            n_columns: self.n_columns,
            total_samples: self.total_samples,
        }
    }
}

impl Clone for StreamMetadata {
    fn clone(&self) -> (r: Self)
        ensures
            r@ == self@,
    {
        StreamMetadata {
            stream_id: self.stream_id,
            name: self.name.clone(),
            sample_size: self.sample_size,
            n_columns: self.n_columns,
            total_samples: self.total_samples,
        }
    }
}

/// A run of samples of one stream under one set of timing and filter
/// parameters.
#[derive(Debug)]
pub struct SegmentMetadata {
    pub stream_id: u8,
    /// Samples per second before decimation.
    pub sampling_rate: u32,
    pub decimation: u32,
    /// Filter cutoff in hertz: the bits of a single-precision number.
    pub filter_cutoff: u32,
    pub filter_type: u8,
    pub time_ref_epoch: u8,
    pub time_ref_serial: String,
    /// Seconds, in the time reference, at which the segment starts.
    pub start_time: u32,
    /// The sample number that falls on `start_time`.
    pub sample_n_offset: u32,
}

/// What a `SegmentMetadata` holds.
pub struct SegmentMetadataView {
    pub stream_id: u8,
    pub sampling_rate: u32,
    pub decimation: u32,
    pub filter_cutoff: u32,
    pub filter_type: u8,
    pub time_ref_epoch: u8,
    pub time_ref_serial: Seq<char>,
    pub start_time: u32,
    pub sample_n_offset: u32,
}

impl View for SegmentMetadata {
    type V = SegmentMetadataView;

    open spec fn view(&self) -> SegmentMetadataView {
        SegmentMetadataView {
            stream_id: self.stream_id,
            sampling_rate: self.sampling_rate,
            decimation: self.decimation,
            filter_cutoff: self.filter_cutoff,
            filter_type: self.filter_type,
            time_ref_epoch: self.time_ref_epoch,
            time_ref_serial: self.time_ref_serial@,
            start_time: self.start_time,
            sample_n_offset: self.sample_n_offset,
        }
    }
}

impl Clone for SegmentMetadata {
    fn clone(&self) -> (r: Self)
        ensures
            r@ == self@,
    {
        SegmentMetadata {
            stream_id: self.stream_id,
            sampling_rate: self.sampling_rate,
            decimation: self.decimation,
            filter_cutoff: self.filter_cutoff,
            filter_type: self.filter_type,
            time_ref_epoch: self.time_ref_epoch,
            time_ref_serial: self.time_ref_serial.clone(),
            start_time: self.start_time,
            sample_n_offset: self.sample_n_offset,
        }
    }
}

/// One column of a stream, as the device describes it.
#[derive(Debug)]
pub struct ColumnMetadata {
    pub stream_id: u8,
    /// Position of the column within a sample.
    pub index: u8,
    pub name: String,
    pub units: String,
    pub description: String,
    pub data_type: DataType,
}

/// What a `ColumnMetadata` holds.
pub struct ColumnMetadataView {
    pub stream_id: u8,
    pub index: u8,
    pub name: Seq<char>,
    pub units: Seq<char>,
    pub description: Seq<char>,
    pub data_type: DataType,
}

impl View for ColumnMetadata {
    type V = ColumnMetadataView;

    open spec fn view(&self) -> ColumnMetadataView {
        ColumnMetadataView {
            stream_id: self.stream_id,
            index: self.index,
            name: self.name@,
            units: self.units@,
            description: self.description@,
            data_type: self.data_type,
        }
    }
}

impl Clone for ColumnMetadata {
    fn clone(&self) -> (r: Self)
        ensures
            r@ == self@,
    {
        ColumnMetadata {
            stream_id: self.stream_id,
            index: self.index,
            name: self.name.clone(),
            units: self.units.clone(),
            description: self.description.clone(),
            data_type: self.data_type,
        }
    }
}

/// Whether two texts are the same.
fn same_string(a: &String, b: &String) -> (r: bool)
    ensures
        r == (a@ == b@),
{
    *a == *b
}

impl StreamMetadata {
    /// Whether `other` describes a stream of another structure: another name,
    /// column count or sample size.
    pub open spec fn structure_differs(a: StreamMetadataView, b: StreamMetadataView) -> bool {
        a.name != b.name || a.n_columns != b.n_columns || a.sample_size != b.sample_size
    }

    /// Whether `other` describes a stream of another structure.
    pub fn differs_in_structure(&self, other: &StreamMetadata) -> (r: bool)
        ensures
            r == StreamMetadata::structure_differs(self@, other@),
    {
        !same_string(&self.name, &other.name) || self.n_columns != other.n_columns
            || self.sample_size != other.sample_size
    }
}

impl SegmentMetadata {
    /// Whether both describe the same segment.
    pub fn same_as(&self, other: &SegmentMetadata) -> (r: bool)
        ensures
            r == (self@ == other@),
    {
        self.stream_id == other.stream_id && self.sampling_rate == other.sampling_rate
            && self.decimation == other.decimation && self.filter_cutoff == other.filter_cutoff
            && self.filter_type == other.filter_type && self.time_ref_epoch
            == other.time_ref_epoch && same_string(&self.time_ref_serial, &other.time_ref_serial)
            && self.start_time == other.start_time && self.sample_n_offset
            == other.sample_n_offset
    }
}

impl ColumnMetadata {
    /// Whether both describe the same column in the same way.
    pub fn same_as(&self, other: &ColumnMetadata) -> (r: bool)
        ensures
            r == (self@ == other@),
    {
        self.stream_id == other.stream_id && self.index == other.index && same_string(
            &self.name,
            &other.name,
        ) && same_string(&self.units, &other.units) && same_string(
            &self.description,
            &other.description,
        ) && self.data_type == other.data_type
    }
}

/// Sample data of one stream as it travels: a run of samples that follow each
/// other, tightly packed, each sample's columns in their declared order.
#[derive(Debug)]
pub struct StreamData {
    pub stream_id: u8,
    /// Number of the first sample in `data`.
    pub first_sample_n: u32,
    pub data: Vec<u8>,
}

/// What a `StreamData` holds.
pub struct StreamDataView {
    pub stream_id: u8,
    pub first_sample_n: u32,
    pub data: Seq<u8>,
}

impl View for StreamData {
    type V = StreamDataView;

    open spec fn view(&self) -> StreamDataView {
        StreamDataView {
            stream_id: self.stream_id,
            first_sample_n: self.first_sample_n,
            data: self.data@,
        }
    }
}

impl Clone for StreamData {
    fn clone(&self) -> (r: Self)
        ensures
            r@ == self@,
    {
        StreamData {
            stream_id: self.stream_id,
            first_sample_n: self.first_sample_n,
            data: self.data.clone(),
        }
    }
}

/// What a vector of column descriptions holds.
pub open spec fn column_list_view(columns: Seq<ColumnMetadata>) -> Seq<ColumnMetadataView> {
    columns.map_values(|c: ColumnMetadata| c@)
}

/// What is known of one stream of a device.
#[derive(Debug)]
pub struct StreamDescription {
    pub stream: StreamMetadata,
    pub segment: SegmentMetadata,
    pub columns: Vec<ColumnMetadata>,
}

/// What a `StreamDescription` holds.
pub struct StreamDescriptionView {
    pub stream: StreamMetadataView,
    pub segment: SegmentMetadataView,
    pub columns: Seq<ColumnMetadataView>,
}

impl View for StreamDescription {
    type V = StreamDescriptionView;

    open spec fn view(&self) -> StreamDescriptionView {
        StreamDescriptionView {
            stream: self.stream@,
            segment: self.segment@,
            columns: column_list_view(self.columns@),
        }
    }
}

/// What a vector of stream descriptions holds.
pub open spec fn stream_list_view(streams: Seq<StreamDescription>) -> Seq<StreamDescriptionView> {
    streams.map_values(|s: StreamDescription| s@)
}

/// What is known of a device: its own metadata and that of its streams.
#[derive(Debug)]
pub struct DeviceDescription {
    pub device: DeviceMetadata,
    pub streams: Vec<StreamDescription>,
}

/// What a `DeviceDescription` holds.
pub struct DeviceDescriptionView {
    pub device: DeviceMetadataView,
    pub streams: Seq<StreamDescriptionView>,
}

impl View for DeviceDescription {
    type V = DeviceDescriptionView;

    open spec fn view(&self) -> DeviceDescriptionView {
        DeviceDescriptionView { device: self.device@, streams: stream_list_view(self.streams@) }
    }
}

} // verus!
