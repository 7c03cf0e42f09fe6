//! Uploading firmware to a device.
//!
//! The image is cut into chunks of 288 bytes, the last one shorter. Each chunk
//! travels as an RPC request whose id is the number of the chunk, and is
//! acknowledged by a reply with the same id. At most two chunks are on their
//! way at a time; replies come in the order of the chunks. When all chunks are
//! acknowledged the device is told to upgrade. An empty image has no chunk:
//! nothing is uploaded and the upgrade follows at once.
//!
//! The uploader decides; sending and receiving are left to the caller, who
//! asks for the next step, carries it out, and reports what came back.

use crate::packet::{Packet, PacketView};
use crate::payload::{Payload, PayloadView, RpcMethodView, RpcRequestView};
use crate::route::DeviceRoute;
use crate::wire::copy_bytes;
use vstd::prelude::*;

verus! {

/// Bytes of firmware in one chunk.
pub const FIRMWARE_CHUNK: usize = 288;

/// Chunks that may be on their way at a time.
pub const MAX_CHUNKS_IN_FLIGHT: u16 = 2;

/// The most chunks an upload can have: their numbers are 16-bit ids.
pub const MAX_CHUNKS: usize = 65535;

/// The method that takes a chunk of firmware.
pub const UPLOAD_METHOD: &'static str = "dev.firmware.upload";

/// The method that puts uploaded firmware to use.
pub const UPGRADE_METHOD: &'static str = "dev.firmware.upgrade";

/// The method that stops the device before an upload.
pub const STOP_METHOD: &'static str = "dev.stop";

/// Number of chunks that an image of `len` bytes is sent in: as many as it
/// takes to hold the image, the last one being shorter where the length is no
/// multiple of the chunk size. An empty image has no chunk.
pub open spec fn chunk_count(len: nat) -> nat {
    ((len + FIRMWARE_CHUNK - 1) / FIRMWARE_CHUNK as int) as nat
}

/// Where chunk `i` of an image of `len` bytes begins.
pub open spec fn chunk_start(len: nat, i: nat) -> int {
    if i * FIRMWARE_CHUNK <= len {
        (i * FIRMWARE_CHUNK) as int
    } else {
        len as int
    }
}

/// Chunk `i` of an image.
pub open spec fn chunk_of(data: Seq<u8>, i: nat) -> Seq<u8> {
    data.subrange(chunk_start(data.len(), i), chunk_start(data.len(), i + 1))
}

/// Why an upload cannot go on.
#[derive(Clone, Copy, Debug, PartialEq, Eq, Structural)]
pub enum UploadError {
    /// The image has more chunks than there are ids.
    TooLarge,
    /// A reply carries another id than that of the oldest chunk on its way.
    OutOfOrder,
    /// The device answered a chunk with an error.
    Rejected,
    /// Something was reported while the uploader did not wait for anything.
    NotReceiving,
}

/// What the caller is to do next.
#[derive(Debug)]
pub enum UploadAction {
    /// Send this request.
    Send(Packet),
    /// Receive a packet if one is there, without waiting.
    Poll,
    /// Receive a packet, waiting for it.
    Wait,
    /// All chunks are acknowledged: tell the device to upgrade.
    Upgrade,
}

/// What an `UploadAction` holds.
pub enum UploadActionView {
    Send(PacketView),
    Poll,
    Wait,
    Upgrade,
}

impl View for UploadAction {
    type V = UploadActionView;

    open spec fn view(&self) -> UploadActionView {
        match self {
            UploadAction::Send(p) => UploadActionView::Send(p@),
            UploadAction::Poll => UploadActionView::Poll,
            UploadAction::Wait => UploadActionView::Wait,
            UploadAction::Upgrade => UploadActionView::Upgrade,
        }
    }
}

/// What came back from the device.
#[derive(Clone, Copy, Debug, PartialEq, Eq, Structural)]
pub enum UploadEvent {
    /// An RPC reply with this id.
    Reply(u16),
    /// An RPC error.
    Refused,
    /// A packet of another kind.
    Other,
    /// Nothing was there to receive.
    WouldBlock,
}

/// The event that a received payload amounts to.
pub open spec fn event_of(payload: PayloadView) -> UploadEvent {
    match payload {
        PayloadView::RpcReply(r) => UploadEvent::Reply(r.id),
        PayloadView::RpcError(_) => UploadEvent::Refused,
        _ => UploadEvent::Other,
    }
}

/// The state of an upload.
pub struct UploadView {
    pub data: Seq<u8>,
    /// Number of the next chunk to send.
    pub next_send: u16,
    /// Number of the next chunk to be acknowledged.
    pub next_ack: u16,
    /// Whether the caller was told to receive and has not reported back.
    pub receiving: bool,
}

impl UploadView {
    /// Whether chunks are left to send.
    pub open spec fn more_to_send(self) -> bool {
        self.next_send < chunk_count(self.data.len())
    }

    /// Whether a chunk may be sent now: one is left, and fewer than two are
    /// on their way.
    pub open spec fn window_open(self) -> bool {
        self.more_to_send() && self.next_send - self.next_ack < MAX_CHUNKS_IN_FLIGHT
    }

    /// Whether all chunks are sent and acknowledged.
    pub open spec fn done(self) -> bool {
        !self.more_to_send() && self.next_ack == self.next_send
    }

    /// What holds of every upload: the image has no more chunks than there are
    /// ids; no chunk is acknowledged before it is sent; at most two chunks are
    /// on their way; and while the caller receives, at least one is.
    pub open spec fn well_formed(self) -> bool {
        &&& chunk_count(self.data.len()) <= MAX_CHUNKS
        &&& self.next_ack <= self.next_send <= chunk_count(self.data.len())
        &&& self.next_send - self.next_ack <= MAX_CHUNKS_IN_FLIGHT
        &&& self.receiving ==> self.next_ack < self.next_send
    }

    /// The request that carries the next chunk.
    pub open spec fn next_request(self) -> PacketView {
        PacketView {
            payload: PayloadView::RpcRequest(
                RpcRequestView {
                    id: self.next_send,
                    method: RpcMethodView::Name(UPLOAD_METHOD@),
                    arg: chunk_of(self.data, self.next_send as nat),
                },
            ),
            routing: Seq::empty(),
            ttl: 0,
        }
    }

    /// The next step, and the state after it was handed out. While the caller
    /// receives, the step is to receive: without waiting if a chunk could be
    /// sent meanwhile, else waiting. Otherwise, if all is done the step is to
    /// upgrade; if a chunk may be sent it is sent; else the caller receives.
    pub open spec fn step(self) -> (UploadView, UploadActionView) {
        if self.receiving {
            (
                self,
                if self.window_open() {
                    UploadActionView::Poll
                } else {
                    UploadActionView::Wait
                },
            )
        } else if self.done() {
            (self, UploadActionView::Upgrade)
        } else if self.window_open() {
            (
                UploadView { next_send: (self.next_send + 1) as u16, receiving: true, ..self },
                UploadActionView::Send(self.next_request()),
            )
        } else {
            (UploadView { receiving: true, ..self }, UploadActionView::Wait)
        }
    }

    /// The state after the caller reported what came back, or why the upload
    /// cannot go on.
    pub open spec fn after(self, event: UploadEvent) -> Result<UploadView, UploadError> {
        if !self.receiving {
            Err(UploadError::NotReceiving)
        } else {
            match event {
                UploadEvent::Reply(id) => if id == self.next_ack {
                    Ok(
                        UploadView {
                            next_ack: (self.next_ack + 1) as u16,
                            receiving: false,
                            ..self
                        },
                    )
                } else {
                    Err(UploadError::OutOfOrder)
                },
                UploadEvent::Refused => Err(UploadError::Rejected),
                UploadEvent::Other | UploadEvent::WouldBlock => Ok(
                    UploadView { receiving: false, ..self },
                ),
            }
        }
    }
}

/// The state of an upload before the first step.
pub open spec fn fresh_upload(data: Seq<u8>) -> UploadView {
    UploadView { data, next_send: 0, next_ack: 0, receiving: false }
}

/// A step keeps an upload well formed; what it sends is the next chunk, with
/// fewer than two chunks on their way before it.
pub proof fn lemma_step_keeps(st: UploadView)
    requires
        st.well_formed(),
    ensures
        st.step().0.well_formed(),
        st.step().0.data == st.data,
        st.step().1 is Send ==> st.next_send - st.next_ack < MAX_CHUNKS_IN_FLIGHT && st.step().0.next_send
            == st.next_send + 1,
        st.step().1 is Upgrade <==> !st.receiving && st.next_ack == chunk_count(st.data.len()),
{
}

/// The upload of an empty image sends nothing: its first step is to upgrade.
pub proof fn lemma_empty_image_upgrades(data: Seq<u8>)
    requires
        data.len() == 0,
    ensures
        fresh_upload(data).well_formed(),
        fresh_upload(data).done(),
        fresh_upload(data).step() == (fresh_upload(data), UploadActionView::Upgrade),
{
}

/// The upload of an image that holds a byte begins by sending the first
/// chunk, under the id 0.
pub proof fn lemma_first_chunk_is_sent(data: Seq<u8>)
    requires
        data.len() > 0,
    ensures
        fresh_upload(data).step().1 == UploadActionView::Send(fresh_upload(data).next_request()),
        fresh_upload(data).next_request().payload == PayloadView::RpcRequest(
            RpcRequestView {
                id: 0,
                method: RpcMethodView::Name(UPLOAD_METHOD@),
                arg: chunk_of(data, 0),
            },
        ),
{
}

/// A report that lets the upload go on keeps it well formed.
pub proof fn lemma_after_keeps(st: UploadView, event: UploadEvent)
    requires
        st.well_formed(),
        st.after(event) is Ok,
    ensures
        st.after(event)->Ok_0.well_formed(),
        st.after(event)->Ok_0.data == st.data,
{
}

/// The chunks of an image follow each other without gap or overlap, none is
/// longer than 288 bytes, and together they are the image.
pub proof fn lemma_chunks_cover(data: Seq<u8>, i: nat)
    ensures
        chunk_of(data, i).len() <= FIRMWARE_CHUNK,
        chunk_start(data.len(), 0) == 0,
        chunk_start(data.len(), i) <= chunk_start(data.len(), i + 1) <= data.len(),
        i < chunk_count(data.len()) ==> chunk_of(data, i).len() > 0,
        i >= chunk_count(data.len()) ==> chunk_start(data.len(), i) == data.len(),
        data.subrange(0, chunk_start(data.len(), i)) + chunk_of(data, i) == data.subrange(
            0,
            chunk_start(data.len(), i + 1),
        ),
{
    let len = data.len();
    assert(data.subrange(0, chunk_start(len, i)) + chunk_of(data, i) =~= data.subrange(
        0,
        chunk_start(len, i + 1),
    ));
    if i >= chunk_count(len) && len > 0 {
        assert(i * 288 >= len) by (nonlinear_arith)
            requires
                i >= (len + 287) / 288,
        ;
    }
    if i < chunk_count(len) && len > 0 {
        assert(i * 288 < len) by (nonlinear_arith)
            requires
                i < (len + 287) / 288,
        ;
    }
}

/// The first `k` chunks of an image, one after the other.
pub open spec fn chunks_joined(data: Seq<u8>, k: nat) -> Seq<u8>
    decreases k,
{
    if k == 0 {
        Seq::empty()
    } else {
        chunks_joined(data, (k - 1) as nat) + chunk_of(data, (k - 1) as nat)
    }
}

/// The chunks of an image, one after the other, are the image.
pub proof fn lemma_chunks_are_the_image(data: Seq<u8>)
    ensures
        chunks_joined(data, chunk_count(data.len())) == data,
{
    let count = chunk_count(data.len());
    lemma_chunks_prefix(data, count);
    lemma_chunks_cover(data, count);
    assert(data.subrange(0, data.len() as int) =~= data);
}

/// The first `k` chunks of an image are the image up to where chunk `k`
/// begins.
pub proof fn lemma_chunks_prefix(data: Seq<u8>, k: nat)
    ensures
        chunks_joined(data, k) == data.subrange(0, chunk_start(data.len(), k)),
    decreases k,
{
    if k == 0 {
        assert(data.subrange(0, 0) =~= Seq::<u8>::empty());
    } else {
        lemma_chunks_prefix(data, (k - 1) as nat);
        lemma_chunks_cover(data, (k - 1) as nat);
    }
}

/// A firmware upload in progress.
pub struct FirmwareUpload {
    data: Vec<u8>,
    next_send: u16,
    next_ack: u16,
    receiving: bool,
}

impl View for FirmwareUpload {
    type V = UploadView;

    closed spec fn view(&self) -> UploadView {
        UploadView {
            data: self.data@,
            next_send: self.next_send,
            next_ack: self.next_ack,
            receiving: self.receiving,
        }
    }
}

impl FirmwareUpload {
    #[verifier::type_invariant]
    spec fn inv(&self) -> bool {
        self@.well_formed()
    }

    /// Begins the upload of an image, unless it has more chunks than there are
    /// ids.
    pub fn new(data: Vec<u8>) -> (r: Result<FirmwareUpload, UploadError>)
        ensures
            chunk_count(data@.len()) <= MAX_CHUNKS ==> r is Ok && r->Ok_0@ == fresh_upload(data@),
            chunk_count(data@.len()) > MAX_CHUNKS ==> r == Err::<FirmwareUpload, _>(
                UploadError::TooLarge,
            ),
    {
        if data.len() > MAX_CHUNKS * FIRMWARE_CHUNK {
            return Err(UploadError::TooLarge);
        }
        Ok(FirmwareUpload { data, next_send: 0, next_ack: 0, receiving: false })
    }

    /// Number of chunks that the image is sent in.
    pub fn chunks(&self) -> (n: usize)
        ensures
            n == chunk_count(self@.data.len()),
            n <= MAX_CHUNKS,
    {
        proof {
            use_type_invariant(self);
        }
        if self.data.len() == 0 {
            0
        } else {
            (self.data.len() - 1) / FIRMWARE_CHUNK + 1
        }
    }

    /// Bytes of the image. Every upload is well formed.
    pub fn total_bytes(&self) -> (n: usize)
        ensures
            n == self@.data.len(),
            self@.well_formed(),
    {
        proof {
            use_type_invariant(self);
        }
        self.data.len()
    }

    /// Bytes of the image in the chunks acknowledged so far.
    pub fn acknowledged_bytes(&self) -> (n: usize)
        ensures
            n == chunk_start(self@.data.len(), self@.next_ack as nat),
    {
        proof {
            use_type_invariant(self);
        }
        let sent = self.next_ack as usize * FIRMWARE_CHUNK;
        if sent <= self.data.len() {
            sent
        } else {
            self.data.len()
        }
    }

    /// Whether the caller was told to receive and has not reported back.
    pub fn is_receiving(&self) -> (r: bool)
        ensures
            r == self@.receiving,
    {
        self.receiving
    }

    /// Whether all chunks are sent and acknowledged.
    pub fn is_done(&self) -> (r: bool)
        ensures
            r == self@.done(),
    {
        let count = self.chunks();
        self.next_send as usize >= count && self.next_ack == self.next_send
    }

    /// What the caller is to do next.
    pub fn next(&mut self) -> (action: UploadAction)
        ensures
            final(self)@ == old(self)@.step().0,
            action@ == old(self)@.step().1,
    {
        proof {
            use_type_invariant(&*self);
        }
        let count = self.chunks();
        let more = (self.next_send as usize) < count;
        let open = more && self.next_send - self.next_ack < MAX_CHUNKS_IN_FLIGHT;
        if self.receiving {
            return if open {
                UploadAction::Poll
            } else {
                UploadAction::Wait
            };
        }
        if !more && self.next_ack == self.next_send {
            return UploadAction::Upgrade;
        }
        if !open {
            self.receiving = true;
            return UploadAction::Wait;
        }
        let len = self.data.len();
        let offset = self.next_send as usize * FIRMWARE_CHUNK;
        proof {
            lemma_chunks_cover(self.data@, self.next_send as nat);
            assert(offset < len) by (nonlinear_arith)
                requires
                    offset == self.next_send * 288,
                    self.next_send < count,
                    count == chunk_count(len as nat),
            ;
        }
        let chunk_end = if len - offset < FIRMWARE_CHUNK {
            len
        } else {
            offset + FIRMWARE_CHUNK
        };
        let chunk = copy_bytes(&self.data, offset, chunk_end);
        let packet = Packet::make_rpc_request(
            UPLOAD_METHOD,
            chunk.as_slice(),
            self.next_send,
            DeviceRoute::root(),
        );
        self.next_send = self.next_send + 1;
        self.receiving = true;
        UploadAction::Send(packet)
    }

    /// Takes note of what came back from the device.
    pub fn on_event(&mut self, event: UploadEvent) -> (r: Result<(), UploadError>)
        ensures
            match old(self)@.after(event) {
                Ok(st) => r is Ok && final(self)@ == st,
                Err(e) => r == Err::<(), _>(e) && final(self)@ == old(self)@,
            },
    {
        proof {
            use_type_invariant(&*self);
        }
        if !self.receiving {
            return Err(UploadError::NotReceiving);
        }
        match event {
            UploadEvent::Reply(id) => {
                if id != self.next_ack {
                    return Err(UploadError::OutOfOrder);
                }
                self.receiving = false;
                self.next_ack = self.next_ack + 1;
                Ok(())
            },
            UploadEvent::Refused => Err(UploadError::Rejected),
            UploadEvent::Other | UploadEvent::WouldBlock => {
                self.receiving = false;
                Ok(())
            },
        }
    }

    /// Takes note of a packet that came back from the device.
    pub fn on_packet(&mut self, payload: &Payload) -> (r: Result<(), UploadError>)
        ensures
            match old(self)@.after(event_of(payload@)) {
                Ok(st) => r is Ok && final(self)@ == st,
                Err(e) => r == Err::<(), _>(e) && final(self)@ == old(self)@,
            },
    {
        let event = match payload {
            Payload::RpcReply(reply) => UploadEvent::Reply(reply.id),
            Payload::RpcError(_) => UploadEvent::Refused,
            _ => UploadEvent::Other,
        };
        self.on_event(event)
    }
}

} // verus!
