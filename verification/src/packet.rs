//! Packets and their frames.
//!
//! A frame is a header of four bytes, the payload, and the routing. The
//! header holds the payload's type, a byte with the routing length in its low
//! four bits and the time to live in its high four bits, and the payload
//! length in two bytes, low byte first. The routing is one byte per level,
//! root first.

use crate::meta::{ColumnMetadata, DeviceMetadata, SegmentMetadata, StreamMetadata};
use crate::payload::{
    lemma_payload_is_canonical, lemma_payload_round_trip, parse_payload, payload_bytes,
    payload_ok, payload_type, Payload, PayloadView, RpcMethod, RpcRequest,
};
use crate::route::{valid_hops, DeviceRoute, MAX_ROUTING_SIZE};
use crate::wire::{from_le16, le16, lemma_le16_round_trip, push_bytes, push_le16};
use vstd::prelude::*;
use vstd::slice::*;

verus! {

/// Bytes in the header of a frame.
pub const HEADER_SIZE: usize = 4;

/// The longest payload of a frame.
pub const MAX_PAYLOAD_SIZE: usize = 32768;

/// The largest time to live.
pub const MAX_TTL: u8 = 15;

/// Why bytes could not be read as a packet.
#[derive(Clone, Copy, Debug, PartialEq, Eq, Structural)]
pub enum ParseError {
    /// The bytes end before the frame does.
    NeedMore,
    /// The bytes do not begin with a frame.
    Invalid,
}

/// Why a packet could not be written.
#[derive(Clone, Copy, Debug, PartialEq, Eq, Structural)]
pub enum EncodeError {
    /// A field cannot be written so that reading gives it back: a text is too
    /// long for its length byte, the time to live is above 15, or something
    /// known is held as unknown.
    Malformed,
    /// The payload is longer than a frame can hold.
    TooLarge,
}

/// The unit of communication with a device.
#[derive(Debug)]
pub struct Packet {
    pub payload: Payload,
    /// The device that the packet comes from or goes to.
    pub routing: DeviceRoute,
    /// Levels of the tree that the packet may still cross.
    pub ttl: u8,
}

/// What a `Packet` holds.
pub struct PacketView {
    pub payload: PayloadView,
    pub routing: Seq<u8>,
    pub ttl: u8,
}

impl View for Packet {
    type V = PacketView;

    open spec fn view(&self) -> PacketView {
        PacketView { payload: self.payload@, routing: self.routing@, ttl: self.ttl }
    }
}

impl Clone for Packet {
    fn clone(&self) -> (r: Self)
        ensures
            r@ == self@,
    {
        Packet { payload: self.payload.clone(), routing: self.routing.clone(), ttl: self.ttl }
    }
}

/// What keeps a packet from being written, if anything.
pub open spec fn encode_fault(p: PacketView) -> Option<EncodeError> {
    if !payload_ok(p.payload) || p.ttl > MAX_TTL {
        Some(EncodeError::Malformed)
    } else if payload_bytes(p.payload).len() > MAX_PAYLOAD_SIZE {
        Some(EncodeError::TooLarge)
    } else {
        None
    }
}

/// The frame of a packet.
pub open spec fn packet_bytes(p: PacketView) -> Seq<u8> {
    seq![payload_type(p.payload), (p.routing.len() + 16 * p.ttl) as u8] + le16(
        payload_bytes(p.payload).len() as u16,
    ) + payload_bytes(p.payload) + p.routing
}

/// The packet that `b` begins with, and the length of its frame.
///
/// Fewer than four bytes are too few. A header that announces more than eight
/// levels of routing or more than 32 KiB of payload is invalid. Bytes that end
/// before the announced frame does are too few. A routing byte above 254 and a
/// payload that does not read as its type are invalid.
pub open spec fn parse_packet(b: Seq<u8>) -> Result<(PacketView, nat), ParseError> {
    if b.len() < HEADER_SIZE {
        Err(ParseError::NeedMore)
    } else {
        let levels = b[1] % 16;
        let ttl = b[1] / 16;
        let size = from_le16(b.subrange(2, 4));
        let end = HEADER_SIZE + size;
        if levels > MAX_ROUTING_SIZE || size > MAX_PAYLOAD_SIZE {
            Err(ParseError::Invalid)
        } else if b.len() < end + levels {
            Err(ParseError::NeedMore)
        } else if !valid_hops(b.subrange(end, end + levels)) {
            Err(ParseError::Invalid)
        } else {
            match parse_payload(b[0], b.subrange(HEADER_SIZE as int, end)) {
                Some(payload) => Ok(
                    (
                        PacketView {
                            payload,
                            routing: b.subrange(end, end + levels),
                            ttl: ttl as u8,
                        },
                        (end + levels) as nat,
                    ),
                ),
                None => Err(ParseError::Invalid),
            }
        }
    }
}

/// The second byte of a header gives back the routing length and the time to
/// live that it was made of.
pub proof fn lemma_header_byte(levels: nat, ttl: u8)
    requires
        levels <= MAX_ROUTING_SIZE,
        ttl <= MAX_TTL,
    ensures
        ((levels + 16 * ttl) as u8) % 16 == levels,
        ((levels + 16 * ttl) as u8) / 16 == ttl,
{
}

/// Where the parts of a frame lie in bytes that begin with it.
proof fn lemma_frame_parts(p: PacketView, rest: Seq<u8>)
    requires
        payload_bytes(p.payload).len() <= MAX_PAYLOAD_SIZE,
    ensures
        ({
            let b = packet_bytes(p) + rest;
            let size = payload_bytes(p.payload).len() as int;
            &&& b.len() == HEADER_SIZE + size + p.routing.len() + rest.len()
            &&& b[0] == payload_type(p.payload)
            &&& b[1] == (p.routing.len() + 16 * p.ttl) as u8
            &&& b.subrange(2, 4) == le16(size as u16)
            &&& b.subrange(4, 4 + size) == payload_bytes(p.payload)
            &&& b.subrange(4 + size, 4 + size + p.routing.len()) == p.routing
        }),
{
    let b = packet_bytes(p) + rest;
    let size = payload_bytes(p.payload).len() as int;
    assert(le16(size as u16).len() == 2);
    assert(b.subrange(2, 4) =~= le16(size as u16));
    assert(b.subrange(4, 4 + size) =~= payload_bytes(p.payload));
    assert(b.subrange(4 + size, 4 + size + p.routing.len()) =~= p.routing);
}

/// Bytes that begin with the frame of a packet read as that packet, whatever
/// follows the frame.
pub proof fn lemma_round_trip(p: PacketView, rest: Seq<u8>)
    requires
        encode_fault(p) is None,
        valid_hops(p.routing),
    ensures
        parse_packet(packet_bytes(p) + rest) == Ok::<_, ParseError>(
            (p, packet_bytes(p).len()),
        ),
{
    let b = packet_bytes(p) + rest;
    let size = payload_bytes(p.payload).len() as u16;
    lemma_frame_parts(p, rest);
    lemma_frame_parts(p, Seq::empty());
    lemma_le16_round_trip(size);
    lemma_payload_round_trip(p.payload);
    lemma_header_byte(p.routing.len(), p.ttl);
    assert(from_le16(b.subrange(2, 4)) == size);
    assert(b[1] % 16 == p.routing.len());
    assert(b[1] / 16 == p.ttl);
}

/// A packet that bytes begin with can be written, and its frame is what the
/// bytes begin with: reading and writing back changes nothing.
pub proof fn lemma_parse_is_canonical(b: Seq<u8>)
    requires
        parse_packet(b) is Ok,
    ensures
        encode_fault(parse_packet(b)->Ok_0.0) is None,
        valid_hops(parse_packet(b)->Ok_0.0.routing),
        parse_packet(b)->Ok_0.1 <= b.len(),
        packet_bytes(parse_packet(b)->Ok_0.0) == b.take(parse_packet(b)->Ok_0.1 as int),
{
    let (p, len) = parse_packet(b)->Ok_0;
    let levels = b[1] % 16;
    let size = from_le16(b.subrange(2, 4));
    let end = 4 + size;
    let body = b.subrange(4, end as int);
    lemma_payload_is_canonical(b[0], body);
    crate::wire::lemma_le16_bytes(b.subrange(2, 4));
    assert((levels + 16 * p.ttl) as u8 == b[1]);
    assert(seq![b[0], b[1]] + b.subrange(2, 4) + body + b.subrange(end as int, end + levels)
        =~= b.take(len as int));
}

impl Packet {
    /// The frame of the packet.
    pub fn serialize(&self) -> (r: Result<Vec<u8>, EncodeError>)
        ensures
            match encode_fault(self@) {
                None => r is Ok && r->Ok_0@ == packet_bytes(self@),
                Some(e) => r == Err::<Vec<u8>, _>(e),
            },
    {
        if self.ttl > MAX_TTL {
            return Err(EncodeError::Malformed);
        }
        let body = match self.payload.encode() {
            Some(body) => body,
            None => {
                return Err(EncodeError::Malformed);
            },
        };
        if body.len() > MAX_PAYLOAD_SIZE {
            return Err(EncodeError::TooLarge);
        }
        let levels = self.routing.len();
        let mut out: Vec<u8> = Vec::new();
        out.push(self.payload.type_id());
        out.push((levels + 16 * self.ttl as usize) as u8);
        push_le16(&mut out, body.len() as u16);
        push_bytes(&mut out, &body, 0, body.len());
        let hops = self.routing.hops();
        push_bytes(&mut out, &hops, 0, levels);
        proof {
            assert(body@.subrange(0, body.len() as int) =~= body@);
            assert(hops@.subrange(0, levels as int) =~= hops@);
            assert(out@ =~= packet_bytes(self@));
        }
        Ok(out)
    }

    /// The packet that `bytes` begin with, and the length of its frame.
    pub fn deserialize(bytes: &[u8]) -> (r: Result<(Packet, usize), ParseError>)
        ensures
            match parse_packet(bytes@) {
                Ok((packet, len)) => r is Ok && r->Ok_0.0@ == packet && r->Ok_0.1 == len,
                Err(e) => r == Err::<(Packet, usize), _>(e),
            },
    {
        if bytes.len() < HEADER_SIZE {
            return Err(ParseError::NeedMore);
        }
        let type_id = bytes[0];
        let levels = (bytes[1] % 16) as usize;
        let ttl = bytes[1] / 16;
        let size = bytes[2] as usize + 256 * (bytes[3] as usize);
        proof {
            assert(size == from_le16(bytes@.subrange(2, 4)));
        }
        if levels > MAX_ROUTING_SIZE || size > MAX_PAYLOAD_SIZE {
            return Err(ParseError::Invalid);
        }
        let end = HEADER_SIZE + size;
        if bytes.len() < end + levels {
            return Err(ParseError::NeedMore);
        }
        let hops = slice_part(bytes, end, end + levels);
        let routing = match DeviceRoute::from_hops(&hops) {
            Ok(routing) => routing,
            Err(_) => {
                return Err(ParseError::Invalid);
            },
        };
        let body = slice_part(bytes, HEADER_SIZE, end);
        match Payload::decode(type_id, body) {
            Some(payload) => Ok((Packet { payload, routing, ttl }, end + levels)),
            None => Err(ParseError::Invalid),
        }
    }

    /// The request that calls the method named `name` with argument `arg`,
    /// for the device at `route`.
    pub fn make_rpc_request(name: &str, arg: &[u8], id: u16, route: DeviceRoute) -> (p: Packet)
        ensures
            p@ == (PacketView {
                payload: PayloadView::RpcRequest(
                    crate::payload::RpcRequestView {
                        id,
                        method: crate::payload::RpcMethodView::Name(name@),
                        arg: arg@,
                    },
                ),
                routing: route@,
                ttl: 0,
            }),
    {
        let owned = slice_part(arg, 0, arg.len());
        proof {
            assert(arg@.subrange(0, arg@.len() as int) =~= arg@);
        }
        Packet {
            payload: Payload::RpcRequest(
                RpcRequest { id, method: RpcMethod::Name(String::from_str(name)), arg: owned },
            ),
            routing: route,
            ttl: 0,
        }
    }
}

/// The bytes `bytes[from..to]`.
pub fn slice_part(bytes: &[u8], from: usize, to: usize) -> (r: Vec<u8>)
    requires
        from <= to <= bytes.len(),
    ensures
        r@ == bytes@.subrange(from as int, to as int),
{
    let mut out: Vec<u8> = Vec::new();
    let mut i: usize = from;
    while i < to
        invariant
            from <= i <= to <= bytes.len(),
            out@ == bytes@.subrange(from as int, i as int),
        decreases to - i,
    {
        out.push(bytes[i]);
        proof {
            assert(out@ =~= bytes@.subrange(from as int, i + 1));
        }
        i += 1;
    }
    out
}

impl DeviceMetadata {
    /// The packet that announces this metadata for the device at `route`.
    pub fn make_update_with_route(&self, route: DeviceRoute) -> (p: Packet)
        ensures
            p@ == (PacketView {
                payload: PayloadView::DeviceMetadata(self@),
                routing: route@,
                ttl: 0,
            }),
    {
        Packet { payload: Payload::DeviceMetadata(self.clone()), routing: route, ttl: 0 }
    }

    /// The packet that announces this metadata for the root device.
    pub fn make_update(&self) -> (p: Packet)
        ensures
            p@ == (PacketView {
                payload: PayloadView::DeviceMetadata(self@),
                routing: Seq::empty(),
                ttl: 0,
            }),
    {
        self.make_update_with_route(DeviceRoute::root())
    }
}

impl StreamMetadata {
    /// The packet that announces this metadata for the device at `route`.
    pub fn make_update_with_route(&self, route: DeviceRoute) -> (p: Packet)
        ensures
            p@ == (PacketView {
                payload: PayloadView::StreamMetadata(self@),
                routing: route@,
                ttl: 0,
            }),
    {
        Packet { payload: Payload::StreamMetadata(self.clone()), routing: route, ttl: 0 }
    }

    /// The packet that announces this metadata for the root device.
    pub fn make_update(&self) -> (p: Packet)
        ensures
            p@ == (PacketView {
                payload: PayloadView::StreamMetadata(self@),
                routing: Seq::empty(),
                ttl: 0,
            }),
    {
        self.make_update_with_route(DeviceRoute::root())
    }
}

impl SegmentMetadata {
    /// The packet that announces this metadata for the device at `route`.
    pub fn make_update_with_route(&self, route: DeviceRoute) -> (p: Packet)
        ensures
            p@ == (PacketView {
                payload: PayloadView::SegmentMetadata(self@),
                routing: route@,
                ttl: 0,
            }),
    {
        Packet { payload: Payload::SegmentMetadata(self.clone()), routing: route, ttl: 0 }
    }

    /// The packet that announces this metadata for the root device.
    pub fn make_update(&self) -> (p: Packet)
        ensures
            p@ == (PacketView {
                payload: PayloadView::SegmentMetadata(self@),
                routing: Seq::empty(),
                ttl: 0,
            }),
    {
        self.make_update_with_route(DeviceRoute::root())
    }
}

impl ColumnMetadata {
    /// The packet that announces this metadata for the device at `route`.
    pub fn make_update_with_route(&self, route: DeviceRoute) -> (p: Packet)
        ensures
            p@ == (PacketView {
                payload: PayloadView::ColumnMetadata(self@),
                routing: route@,
                ttl: 0,
            }),
    {
        Packet { payload: Payload::ColumnMetadata(self.clone()), routing: route, ttl: 0 }
    }

    /// The packet that announces this metadata for the root device.
    pub fn make_update(&self) -> (p: Packet)
        ensures
            p@ == (PacketView {
                payload: PayloadView::ColumnMetadata(self@),
                routing: Seq::empty(),
                ttl: 0,
            }),
    {
        self.make_update_with_route(DeviceRoute::root())
    }
}

/// The frames of a run of packets, one after the other: what a log holds.
pub open spec fn log_bytes(packets: Seq<PacketView>) -> Seq<u8>
    decreases packets.len(),
{
    if packets.len() == 0 {
        Seq::empty()
    } else {
        packet_bytes(packets[0]) + log_bytes(packets.skip(1))
    }
}

/// What reading a log gives.
pub struct LogView {
    /// The packets read, in the order of the log.
    pub packets: Seq<PacketView>,
    /// Bytes of the log that the packets take.
    pub consumed: nat,
    /// Why reading stopped before the end of the log, if it did.
    pub fault: Option<ParseError>,
}

/// What reading `b` as a log gives, with no more than `fuel` packets read:
/// the packets up to the end, or up to the first bytes that do not begin with
/// a frame.
pub open spec fn parse_log(b: Seq<u8>, fuel: nat) -> LogView
    decreases fuel,
{
    if b.len() == 0 || fuel == 0 {
        LogView { packets: Seq::empty(), consumed: 0, fault: None }
    } else {
        match parse_packet(b) {
            Ok((packet, len)) => {
                let rest = parse_log(b.skip(len as int), (fuel - 1) as nat);
                LogView {
                    packets: seq![packet] + rest.packets,
                    consumed: len + rest.consumed,
                    fault: rest.fault,
                }
            },
            Err(e) => LogView { packets: Seq::empty(), consumed: 0, fault: Some(e) },
        }
    }
}

/// Whether all packets of a run can be written.
pub open spec fn all_encodable(packets: Seq<PacketView>) -> bool {
    forall|i: int|
        0 <= i < packets.len() ==> encode_fault(#[trigger] packets[i]) is None && valid_hops(
            packets[i].routing,
        )
}

/// A frame is at least as long as its header.
pub proof fn lemma_frame_len(p: PacketView)
    ensures
        packet_bytes(p).len() == HEADER_SIZE + payload_bytes(p.payload).len() + p.routing.len(),
{
    lemma_le16_round_trip(payload_bytes(p.payload).len() as u16);
}

/// Reading the log of a run of packets gives the packets back, all of the
/// log being read without fault.
pub proof fn lemma_log_round_trip(packets: Seq<PacketView>, fuel: nat)
    requires
        all_encodable(packets),
        fuel >= packets.len(),
    ensures
        parse_log(log_bytes(packets), fuel).packets == packets,
        parse_log(log_bytes(packets), fuel).consumed == log_bytes(packets).len(),
        parse_log(log_bytes(packets), fuel).fault is None,
    decreases packets.len(),
{
    if packets.len() == 0 {
    } else {
        let first = packets[0];
        let rest = packets.skip(1);
        let b = log_bytes(packets);
        lemma_frame_len(first);
        lemma_round_trip(first, log_bytes(rest));
        assert(b.skip(packet_bytes(first).len() as int) =~= log_bytes(rest));
        assert(all_encodable(rest)) by {
            assert forall|i: int| 0 <= i < rest.len() implies encode_fault(
                #[trigger] rest[i],
            ) is None && valid_hops(rest[i].routing) by {
                assert(rest[i] == packets[i + 1]);
            }
        }
        lemma_log_round_trip(rest, (fuel - 1) as nat);
        assert(seq![first] + rest =~= packets);
    }
}

/// What is done with bytes that came over a link.
#[derive(Debug)]
pub enum FrameStep {
    /// The bytes begin with this packet, whose frame is this long.
    Frame(Packet, usize),
    /// The bytes end before the frame does: more are to be read.
    Wait,
    /// The bytes do not begin with a frame: this many are passed over, and
    /// the next frame is looked for after them.
    Skip(usize),
}

/// What a `FrameStep` holds.
pub enum FrameStepView {
    Frame(PacketView, usize),
    Wait,
    Skip(usize),
}

impl View for FrameStep {
    type V = FrameStepView;

    open spec fn view(&self) -> FrameStepView {
        match self {
            FrameStep::Frame(p, len) => FrameStepView::Frame(p@, *len),
            FrameStep::Wait => FrameStepView::Wait,
            FrameStep::Skip(n) => FrameStepView::Skip(*n),
        }
    }
}

/// The length of the frame that a header announces: nothing where the bytes
/// hold no whole header, or where the header announces more routing or more
/// payload than a frame can have.
pub open spec fn announced_length(b: Seq<u8>) -> Option<nat> {
    if b.len() < HEADER_SIZE {
        None
    } else {
        let levels = b[1] % 16;
        let size = from_le16(b.subrange(2, 4));
        if levels > MAX_ROUTING_SIZE || size > MAX_PAYLOAD_SIZE {
            None
        } else {
            Some((HEADER_SIZE + size + levels) as nat)
        }
    }
}

/// The length of the frame that a header announces.
pub fn frame_length(bytes: &[u8]) -> (r: Option<usize>)
    ensures
        match announced_length(bytes@) {
            Some(n) => r == Some(n as usize) && n <= HEADER_SIZE + MAX_PAYLOAD_SIZE
                + MAX_ROUTING_SIZE,
            None => r is None,
        },
{
    if bytes.len() < HEADER_SIZE {
        return None;
    }
    let levels = (bytes[1] % 16) as usize;
    let size = bytes[2] as usize + 256 * (bytes[3] as usize);
    proof {
        assert(size == from_le16(bytes@.subrange(2, 4)));
    }
    if levels > MAX_ROUTING_SIZE || size > MAX_PAYLOAD_SIZE {
        None
    } else {
        Some(HEADER_SIZE + size + levels)
    }
}

/// A frame that reads is as long as its header announces, and bytes that are
/// found invalid hold the whole of what their header announces.
pub proof fn lemma_announced_length(b: Seq<u8>)
    ensures
        match parse_packet(b) {
            Ok((_, len)) => announced_length(b) == Some(len),
            Err(ParseError::Invalid) => b.len() >= HEADER_SIZE && match announced_length(b) {
                Some(n) => n <= b.len(),
                None => true,
            },
            Err(ParseError::NeedMore) => match announced_length(b) {
                Some(n) => b.len() < n,
                None => b.len() < HEADER_SIZE,
            },
        },
{
}

/// What is done with bytes that came over a link: a packet is taken if the
/// bytes begin with one, and bytes that are too few wait for more. A frame
/// that does not read is passed over whole, by the length that its header
/// announces, so that it costs the link nothing but itself; where the header
/// announces what no frame can have, its first byte is passed over.
pub open spec fn frame_step(b: Seq<u8>) -> FrameStepView {
    match parse_packet(b) {
        Ok((packet, len)) => FrameStepView::Frame(packet, len as usize),
        Err(ParseError::NeedMore) => FrameStepView::Wait,
        Err(ParseError::Invalid) => match announced_length(b) {
            Some(n) => FrameStepView::Skip(n as usize),
            None => FrameStepView::Skip(1),
        },
    }
}

/// What is done with bytes that came over a link. What is taken or passed
/// over is at least one byte, and no more than there is.
pub fn take_frame(bytes: &[u8]) -> (r: FrameStep)
    ensures
        r@ == frame_step(bytes@),
        match r@ {
            FrameStepView::Frame(_, n) => HEADER_SIZE <= n <= bytes@.len(),
            FrameStepView::Skip(n) => 1 <= n <= bytes@.len(),
            FrameStepView::Wait => true,
        },
{
    proof {
        lemma_announced_length(bytes@);
    }
    match Packet::deserialize(bytes) {
        Ok((packet, len)) => FrameStep::Frame(packet, len),
        Err(ParseError::NeedMore) => FrameStep::Wait,
        Err(ParseError::Invalid) => match frame_length(bytes) {
            Some(n) => FrameStep::Skip(n),
            None => FrameStep::Skip(1),
        },
    }
}

/// The packet of a log that begins at `pos`, and where the next one begins:
/// nothing at the end of the log, and nothing where the bytes at `pos` do not
/// begin with a whole frame, which is where reading a log stops.
pub open spec fn log_step(b: Seq<u8>, pos: usize) -> Option<(PacketView, usize)> {
    if pos >= b.len() {
        None
    } else {
        match parse_packet(b.skip(pos as int)) {
            Ok((packet, len)) => Some((packet, (pos + len) as usize)),
            Err(_) => None,
        }
    }
}

/// The packet of a log that begins at `pos`, and where the next one begins.
pub fn next_in_log(bytes: &[u8], pos: usize) -> (r: Option<(Packet, usize)>)
    ensures
        match log_step(bytes@, pos) {
            Some((packet, next)) => r is Some && r->Some_0.0@ == packet && r->Some_0.1 == next
                && pos < next <= bytes@.len(),
            None => r is None,
        },
{
    if pos >= bytes.len() {
        return None;
    }
    let tail = slice_subrange(bytes, pos, bytes.len());
    proof {
        assert(tail@ =~= bytes@.skip(pos as int));
    }
    match Packet::deserialize(tail) {
        Ok((packet, len)) => Some((packet, pos + len)),
        Err(_) => None,
    }
}

/// Reading a log step by step gives the packets that reading it at once
/// gives: where a step finds a packet, the packets from there on are that
/// packet and the packets from the next place on; where it finds none, there
/// are none from there on.
pub proof fn lemma_log_in_steps(b: Seq<u8>, pos: usize, fuel: nat)
    requires
        pos <= b.len() <= usize::MAX,
        fuel > 0,
    ensures
        match log_step(b, pos) {
            Some((packet, next)) => {
                &&& pos < next <= b.len()
                &&& parse_log(b.skip(pos as int), fuel).packets == seq![packet] + parse_log(
                    b.skip(next as int),
                    (fuel - 1) as nat,
                ).packets
            },
            None => parse_log(b.skip(pos as int), fuel).packets == Seq::<PacketView>::empty(),
        },
{
    if pos < b.len() {
        match parse_packet(b.skip(pos as int)) {
            Ok((packet, len)) => {
                assert(b.skip(pos as int).skip(len as int) =~= b.skip(pos + len));
            },
            Err(_) => {},
        }
    }
}

/// What a vector of packets holds.
pub open spec fn packets_view(packets: Seq<Packet>) -> Seq<PacketView> {
    packets.map_values(|p: Packet| p@)
}

/// The packets of a log, with how far the log was read and why reading
/// stopped.
#[derive(Debug)]
pub struct LogRead {
    pub packets: Vec<Packet>,
    pub consumed: usize,
    pub fault: Option<ParseError>,
}

impl View for LogRead {
    type V = LogView;

    open spec fn view(&self) -> LogView {
        LogView {
            packets: packets_view(self.packets@),
            consumed: self.consumed as nat,
            fault: self.fault,
        }
    }
}

/// Reads the packets of a log: up to its end, or up to the first bytes that do
/// not begin with a frame.
pub fn read_log(bytes: &[u8]) -> (r: LogRead)
    ensures
        r@ == parse_log(bytes@, bytes@.len()),
{
    let mut packets: Vec<Packet> = Vec::new();
    let mut pos: usize = 0;
    let mut fault: Option<ParseError> = None;
    proof {
        assert(bytes@.skip(0) =~= bytes@);
        assert(packets_view(packets@) =~= Seq::empty());
    }
    while pos < bytes.len()
        invariant
            pos <= bytes.len(),
            fault is None,
            packets.len() <= pos,
            ({
                let rest = parse_log(bytes@.skip(pos as int), (bytes@.len() - packets.len()) as nat);
                parse_log(bytes@, bytes@.len()) == (LogView {
                    packets: packets_view(packets@) + rest.packets,
                    consumed: (pos + rest.consumed) as nat,
                    fault: rest.fault,
                })
            }),
        decreases bytes.len() - pos,
    {
        let ghost done = packets_view(packets@);
        let ghost here = bytes@.skip(pos as int);
        let tail = slice_subrange(bytes, pos, bytes.len());
        proof {
            assert(tail@ =~= here);
        }
        match Packet::deserialize(tail) {
            Ok((packet, len)) => {
                proof {
                    assert(here.skip(len as int) =~= bytes@.skip(pos + len));
                    assert(len >= HEADER_SIZE);
                }
                packets.push(packet);
                pos = pos + len;
                proof {
                    assert(packets_view(packets@) =~= done.push(packet@));
                    let rest = parse_log(
                        bytes@.skip(pos as int),
                        (bytes@.len() - packets.len()) as nat,
                    );
                    assert(done + (seq![packet@] + rest.packets) =~= done.push(packet@)
                        + rest.packets);
                }
            },
            Err(e) => {
                proof {
                    assert(done + Seq::<PacketView>::empty() =~= done);
                }
                return LogRead { packets, consumed: pos, fault: Some(e) };
            },
        }
    }
    proof {
        let rest = parse_log(bytes@.skip(pos as int), (bytes@.len() - packets.len()) as nat);
        assert(bytes@.skip(pos as int).len() == 0);
        assert(packets_view(packets@) + rest.packets =~= packets_view(packets@));
    }
    LogRead { packets, consumed: pos, fault }
}

} // verus!
