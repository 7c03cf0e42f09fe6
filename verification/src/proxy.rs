//! Sharing one device link among many ports.
//!
//! The proxy owns the link to the device tree. Each port sees the packets that
//! come from its part of the tree, in the order in which they arrived, through
//! a queue of its own. A port whose queue is full loses the packet, or is
//! closed, as the proxy was told to deal with slow ports. An RPC request of an
//! RPC port goes out under an id that no other request on its way uses, and
//! its reply goes to that port alone, under the id that the port chose.
//!
//! What is here decides and keeps the books. Reading from and writing to the
//! link, and waking those who wait on a queue, is left to the caller.

use crate::packet::{Packet, PacketView};
use crate::payload::{
    traffic_of, Payload, PayloadView, RpcErrorView, RpcReplyView, RpcRequestView, Traffic,
};
use crate::route::DeviceRoute;
use crate::seqs::{first_where, lemma_first_where, lemma_first_where_bounds};
use crate::tool::{route_matches, shown};
use std::collections::VecDeque;
use vstd::prelude::*;

verus! {

/// Packets that a port's queue holds unless told otherwise.
pub const DEFAULT_QUEUE_CAPACITY: usize = 100;

/// Ids that RPC requests on their way can have.
pub const RPC_IDS: usize = 65536;

/// Whether the proxy has its link to the device.
#[derive(Clone, Copy, Debug, PartialEq, Eq, Structural)]
pub enum LinkState {
    Disconnected,
    Connected,
    Reconnecting,
    /// The link was lost for good.
    Failed,
}

/// What happened to the link.
#[derive(Clone, Copy, Debug, PartialEq, Eq, Structural)]
pub enum LinkEvent {
    /// The link was made.
    ConnectOk,
    /// A packet was received.
    RecvOk,
    /// Receiving failed.
    RecvErr,
    /// Sending failed.
    SendErr,
    /// The link was made again.
    RetryOk,
    /// The time allowed for making the link again has run out.
    DeadlineExceeded,
}

/// The state of the link after an event. Without a link, making it connects.
/// With one, a failure to receive or send starts reconnecting. While
/// reconnecting, success connects and the deadline fails the link for good.
/// Any other event leaves the state as it is.
pub open spec fn link_after(state: LinkState, event: LinkEvent) -> LinkState {
    match (state, event) {
        (LinkState::Disconnected, LinkEvent::ConnectOk) => LinkState::Connected,
        (LinkState::Connected, LinkEvent::RecvErr) => LinkState::Reconnecting,
        (LinkState::Connected, LinkEvent::SendErr) => LinkState::Reconnecting,
        (LinkState::Reconnecting, LinkEvent::RetryOk) => LinkState::Connected,
        (LinkState::Reconnecting, LinkEvent::DeadlineExceeded) => LinkState::Failed,
        _ => state,
    }
}

/// The state of the link after an event.
pub fn link_step(state: LinkState, event: LinkEvent) -> (r: LinkState)
    ensures
        r == link_after(state, event),
{
    match (state, event) {
        (LinkState::Disconnected, LinkEvent::ConnectOk) => LinkState::Connected,
        (LinkState::Connected, LinkEvent::RecvErr) => LinkState::Reconnecting,
        (LinkState::Connected, LinkEvent::SendErr) => LinkState::Reconnecting,
        (LinkState::Reconnecting, LinkEvent::RetryOk) => LinkState::Connected,
        (LinkState::Reconnecting, LinkEvent::DeadlineExceeded) => LinkState::Failed,
        _ => state,
    }
}

/// A link that failed for good stays failed.
pub proof fn lemma_failed_is_terminal(event: LinkEvent)
    ensures
        link_after(LinkState::Failed, event) == LinkState::Failed,
{
}

/// How long to wait before trying once more to make the link, in
/// milliseconds: the first wait doubled for every attempt made, but no longer
/// than is left until the deadline. Nothing once the deadline has passed.
pub open spec fn backoff_wait(first_ms: u64, attempt: u32, elapsed_ms: u64, deadline_ms: u64)
    -> Option<u64> {
    if elapsed_ms >= deadline_ms {
        None
    } else {
        let left = deadline_ms - elapsed_ms;
        let wanted = doubled(first_ms as nat, attempt as nat);
        Some(
            if wanted < left {
                wanted as u64
            } else {
                left as u64
            },
        )
    }
}

/// `n` doubled `times` times.
pub open spec fn doubled(n: nat, times: nat) -> nat
    decreases times,
{
    if times == 0 {
        n
    } else {
        2 * doubled(n, (times - 1) as nat)
    }
}

/// How long to wait before trying once more to make the link.
pub fn backoff(first_ms: u64, attempt: u32, elapsed_ms: u64, deadline_ms: u64) -> (r: Option<u64>)
    ensures
        r == backoff_wait(first_ms, attempt, elapsed_ms, deadline_ms),
{
    if elapsed_ms >= deadline_ms {
        return None;
    }
    let left = deadline_ms - elapsed_ms;
    let mut wait: u64 = first_ms;
    let mut i: u32 = 0;
    while i < attempt && wait < left
        invariant
            i <= attempt,
            wait == doubled(first_ms as nat, i as nat) || (wait >= left && doubled(
                first_ms as nat,
                i as nat,
            ) >= left),
            wait < left ==> wait == doubled(first_ms as nat, i as nat),
        decreases attempt - i,
    {
        wait = if wait > u64::MAX / 2 {
            u64::MAX
        } else {
            wait * 2
        };
        i += 1;
    }
    proof {
        if i < attempt {
            lemma_doubled_grows(first_ms as nat, i as nat, attempt as nat);
        }
    }
    Some(
        if wait < left {
            wait
        } else {
            left
        },
    )
}

/// Doubling more often gives no less.
pub proof fn lemma_doubled_grows(n: nat, a: nat, b: nat)
    requires
        a <= b,
    ensures
        doubled(n, a) <= doubled(n, b),
    decreases b,
{
    if a < b {
        lemma_doubled_grows(n, a, (b - 1) as nat);
    }
}

/// Why a port got no packet.
#[derive(Clone, Copy, Debug, PartialEq, Eq, Structural)]
pub enum RecvError {
    /// No packet is waiting.
    WouldBlock,
    /// The port was closed, by its owner or as a slow port.
    Closed,
    /// The link to the device was lost for good.
    TransportGone,
    /// There is no such port.
    NoSuchPort,
}

/// Why a packet of a port was not sent.
#[derive(Clone, Copy, Debug, PartialEq, Eq, Structural)]
pub enum SendError {
    /// The port is closed.
    Closed,
    /// The link to the device was lost for good.
    TransportGone,
    /// There is no such port.
    NoSuchPort,
    /// All ids are taken by requests on their way.
    NoFreeId,
}

/// What became of a packet at a port.
#[derive(Clone, Copy, Debug, PartialEq, Eq, Structural)]
pub enum Delivery {
    /// The packet is not for the port.
    Skipped,
    /// The packet was put into the port's queue.
    Queued,
    /// The queue was full and the packet was dropped.
    Dropped,
    /// The queue was full and the port was closed.
    Kicked,
}

/// The kinds of traffic that a port takes.
#[derive(Clone, Copy, Debug, PartialEq, Eq, Structural)]
pub struct TrafficFilter {
    pub data: bool,
    pub metadata: bool,
    pub heartbeat: bool,
    pub other: bool,
}

impl TrafficFilter {
    /// Whether traffic of a kind passes.
    pub open spec fn passes(self, traffic: Traffic) -> bool {
        match traffic {
            Traffic::Data => self.data,
            Traffic::Metadata => self.metadata,
            Traffic::Heartbeat => self.heartbeat,
            Traffic::Other => self.other,
        }
    }

    /// The filter that everything passes.
    pub fn all() -> (r: TrafficFilter)
        ensures
            forall|t: Traffic| r.passes(t),
    {
        TrafficFilter { data: true, metadata: true, heartbeat: true, other: true }
    }

    /// Whether traffic of a kind passes.
    pub fn lets_through(self, traffic: Traffic) -> (r: bool)
        ensures
            r == self.passes(traffic),
    {
        match traffic {
            Traffic::Data => self.data,
            Traffic::Metadata => self.metadata,
            Traffic::Heartbeat => self.heartbeat,
            Traffic::Other => self.other,
        }
    }
}

/// What a port holds.
pub struct PortView {
    /// The part of the tree that the port looks at.
    pub subtree: Seq<u8>,
    /// How many levels below `subtree` the port looks.
    pub depth: usize,
    /// The kinds of traffic that the port takes.
    pub accepts: TrafficFilter,
    /// Whether RPC requests of the port are tracked.
    pub rpc: bool,
    pub capacity: usize,
    /// The packets that wait for the port's owner, oldest first.
    pub queue: Seq<PacketView>,
    /// Packets that the port lost because its queue was full.
    pub dropped: u64,
    pub open: bool,
}

/// An RPC request on its way.
#[derive(Clone, Copy, Debug, PartialEq, Eq, Structural)]
pub struct PendingRpc {
    /// The id under which the request went out.
    pub wire_id: u16,
    /// The port that sent it.
    pub port: usize,
    /// The id that the port gave it.
    pub original_id: u16,
}

/// What the proxy holds.
pub struct ProxyView {
    pub ports: Seq<PortView>,
    /// Whether a port whose queue is full is closed rather than passed over.
    pub kick_slow: bool,
    /// The id that the next request is given if it is free.
    pub next_id: u16,
    /// The requests on their way, oldest first.
    pub pending: Seq<PendingRpc>,
    pub link: LinkState,
}

/// Whether a port wants a packet: the packet comes from the port's part of
/// the tree and is of a kind that the port takes.
pub open spec fn wanted(port: PortView, pkt: PacketView) -> bool {
    shown(port.subtree, pkt.routing, Some(port.depth)) && port.accepts.passes(
        traffic_of(pkt.payload),
    )
}

/// Whether a packet is for a port: the port is open and wants the packet.
pub open spec fn in_scope(port: PortView, pkt: PacketView) -> bool {
    port.open && wanted(port, pkt)
}

/// What becomes of a packet at a port that it is for, and the port after.
/// With room in the queue the packet joins it at the end. Without room, the
/// port is closed if slow ports are kicked, else the packet is counted as
/// dropped.
pub open spec fn offer(port: PortView, pkt: PacketView, kick_slow: bool) -> (PortView, Delivery) {
    if port.queue.len() < port.capacity {
        (PortView { queue: port.queue.push(pkt), ..port }, Delivery::Queued)
    } else if kick_slow {
        (PortView { open: false, ..port }, Delivery::Kicked)
    } else {
        (
            PortView {
                dropped: if port.dropped < u64::MAX {
                    (port.dropped + 1) as u64
                } else {
                    port.dropped
                },
                ..port
            },
            Delivery::Dropped,
        )
    }
}

/// What becomes of a packet from the device at a port, and the port after: a
/// packet that is not for the port is passed over.
pub open spec fn fan_out_one(port: PortView, pkt: PacketView, kick_slow: bool) -> (
    PortView,
    Delivery,
) {
    if in_scope(port, pkt) {
        offer(port, pkt, kick_slow)
    } else {
        (port, Delivery::Skipped)
    }
}

/// Tells whether a pending request went out under `id`.
pub open spec fn has_wire_id(id: u16) -> spec_fn(PendingRpc) -> bool {
    |p: PendingRpc| p.wire_id == id
}

/// The id of the request that a payload answers, if it answers one.
pub open spec fn answered_id(payload: PayloadView) -> Option<u16> {
    match payload {
        PayloadView::RpcReply(r) => Some(r.id),
        PayloadView::RpcError(e) => Some(e.id),
        _ => None,
    }
}

/// A payload that answers a request, with another id.
pub open spec fn with_answer_id(payload: PayloadView, id: u16) -> PayloadView {
    match payload {
        PayloadView::RpcReply(r) => PayloadView::RpcReply(RpcReplyView { id, ..r }),
        PayloadView::RpcError(e) => PayloadView::RpcError(RpcErrorView { id, ..e }),
        _ => payload,
    }
}

/// The position of the request on its way that a packet answers, if it
/// answers one.
pub open spec fn answered(st: ProxyView, pkt: PacketView) -> Option<int> {
    match answered_id(pkt.payload) {
        Some(id) => {
            let k = first_where(st.pending, has_wire_id(id));
            if k < st.pending.len() {
                Some(k)
            } else {
                None
            }
        },
        None => None,
    }
}

/// What the proxy holds after a packet came from the device, and what became
/// of the packet at each port.
///
/// The answer to a request on its way goes to the port that sent the request,
/// under the id that the port gave the request, and to no other port; the
/// request is then no longer on its way. If that port is gone the answer is
/// lost. Any other packet goes to every port that it is for.
pub open spec fn deliver(st: ProxyView, pkt: PacketView) -> (ProxyView, Seq<Delivery>) {
    match answered(st, pkt) {
        Some(k) => {
            let entry = st.pending[k];
            let pending = st.pending.remove(k);
            let answer = PacketView {
                payload: with_answer_id(pkt.payload, entry.original_id),
                ..pkt
            };
            let outcome = Seq::new(
                st.ports.len(),
                |i: int|
                    if i == entry.port && st.ports[i].open {
                        offer(st.ports[i], answer, st.kick_slow).1
                    } else {
                        Delivery::Skipped
                    },
            );
            let ports = Seq::new(
                st.ports.len(),
                |i: int|
                    if i == entry.port && st.ports[i].open {
                        offer(st.ports[i], answer, st.kick_slow).0
                    } else {
                        st.ports[i]
                    },
            );
            (ProxyView { ports, pending, ..st }, outcome)
        },
        None => (
            ProxyView {
                ports: Seq::new(
                    st.ports.len(),
                    |i: int| fan_out_one(st.ports[i], pkt, st.kick_slow).0,
                ),
                ..st
            },
            Seq::new(st.ports.len(), |i: int| fan_out_one(st.ports[i], pkt, st.kick_slow).1),
        ),
    }
}

/// Whether a request on its way uses `id`.
pub open spec fn id_taken(pending: Seq<PendingRpc>, id: u16) -> bool {
    first_where(pending, has_wire_id(id)) < pending.len()
}

/// The id `steps` after `start`, counting on from zero after the largest.
pub open spec fn id_after(start: u16, steps: nat) -> u16 {
    ((start + steps) % (RPC_IDS as int)) as u16
}

/// How many ids from `start` on are taken before the first free one, looking
/// at no more than `limit` ids.
pub open spec fn taken_run(pending: Seq<PendingRpc>, start: u16, limit: nat) -> nat
    decreases limit,
{
    if limit == 0 || !id_taken(pending, start) {
        0
    } else {
        1 + taken_run(pending, id_after(start, 1), (limit - 1) as nat)
    }
}

/// The id that the next request goes out under: the first free id from
/// `next_id` on, if there is one.
pub open spec fn free_id(st: ProxyView) -> Option<u16> {
    let run = taken_run(st.pending, st.next_id, RPC_IDS as nat);
    if run >= RPC_IDS {
        None
    } else {
        Some(id_after(st.next_id, run))
    }
}

/// What the proxy holds after a port handed in a packet, and the packet to
/// put on the link.
///
/// Nothing is sent for a port that is not there or closed, nor once the link
/// is lost for good. The RPC request of an RPC port goes out under the first
/// free id, which is noted with the port and the id that the port chose; if no
/// id is free the request is refused. Any other packet goes out as it is.
pub open spec fn send(st: ProxyView, port: usize, pkt: PacketView) -> (
    ProxyView,
    Result<PacketView, SendError>,
) {
    if port >= st.ports.len() {
        (st, Err(SendError::NoSuchPort))
    } else if !st.ports[port as int].open {
        (st, Err(SendError::Closed))
    } else if st.link == LinkState::Failed {
        (st, Err(SendError::TransportGone))
    } else {
        match pkt.payload {
            PayloadView::RpcRequest(r) => if st.ports[port as int].rpc {
                match free_id(st) {
                    Some(id) => (
                        ProxyView {
                            next_id: id_after(id, 1),
                            pending: st.pending.push(
                                PendingRpc { wire_id: id, port, original_id: r.id },
                            ),
                            ..st
                        },
                        Ok(
                            PacketView {
                                payload: PayloadView::RpcRequest(RpcRequestView { id, ..r }),
                                ..pkt
                            },
                        ),
                    ),
                    None => (st, Err(SendError::NoFreeId)),
                }
            } else {
                (st, Ok(pkt))
            },
            _ => (st, Ok(pkt)),
        }
    }
}

/// What the proxy holds after the owner of a port asked for a packet, and
/// what the owner gets: the oldest packet in the port's queue. Once the link
/// is lost for good every port is told so.
pub open spec fn recv(st: ProxyView, port: usize) -> (ProxyView, Result<PacketView, RecvError>) {
    if port >= st.ports.len() {
        (st, Err(RecvError::NoSuchPort))
    } else if st.link == LinkState::Failed {
        (st, Err(RecvError::TransportGone))
    } else if !st.ports[port as int].open {
        (st, Err(RecvError::Closed))
    } else if st.ports[port as int].queue.len() == 0 {
        (st, Err(RecvError::WouldBlock))
    } else {
        let p = st.ports[port as int];
        (
            ProxyView {
                ports: st.ports.update(port as int, PortView { queue: p.queue.skip(1), ..p }),
                ..st
            },
            Ok(p.queue[0]),
        )
    }
}

/// The requests on their way without those of port `port`.
pub open spec fn without_port(pending: Seq<PendingRpc>, port: usize) -> Seq<PendingRpc>
    decreases pending.len(),
{
    if pending.len() == 0 {
        Seq::empty()
    } else if pending.last().port != port {
        without_port(pending.drop_last(), port).push(pending.last())
    } else {
        without_port(pending.drop_last(), port)
    }
}

/// What the proxy holds after a port was closed: the port gets no more
/// packets, and its requests are no longer on their way.
pub open spec fn close(st: ProxyView, port: usize) -> ProxyView {
    if port >= st.ports.len() {
        st
    } else {
        ProxyView {
            ports: st.ports.update(
                port as int,
                PortView { open: false, ..st.ports[port as int] },
            ),
            pending: without_port(st.pending, port),
            ..st
        }
    }
}

/// What the proxy holds after the request that went out under `wire_id`
/// timed out: it is no longer on its way.
pub open spec fn expire(st: ProxyView, wire_id: u16) -> ProxyView {
    let k = first_where(st.pending, has_wire_id(wire_id));
    if k < st.pending.len() {
        ProxyView { pending: st.pending.remove(k), ..st }
    } else {
        st
    }
}

/// What a queue of packets holds.
pub open spec fn queue_view(queue: Seq<Packet>) -> Seq<PacketView> {
    queue.map_values(|p: Packet| p@)
}

/// A handle on the packets from a part of the device tree.
#[derive(Debug)]
pub struct Port {
    subtree: DeviceRoute,
    depth: usize,
    accepts: TrafficFilter,
    rpc: bool,
    capacity: usize,
    queue: VecDeque<Packet>,
    dropped: u64,
    open: bool,
}

impl View for Port {
    type V = PortView;

    closed spec fn view(&self) -> PortView {
        PortView {
            subtree: self.subtree@,
            depth: self.depth,
            accepts: self.accepts,
            rpc: self.rpc,
            capacity: self.capacity,
            queue: queue_view(self.queue@),
            dropped: self.dropped,
            open: self.open,
        }
    }
}

impl Port {
    /// Offers a packet to the port, which it is for.
    fn offer(&mut self, pkt: Packet, kick_slow: bool) -> (r: Delivery)
        ensures
            final(self)@ == offer(old(self)@, pkt@, kick_slow).0,
            r == offer(old(self)@, pkt@, kick_slow).1,
    {
        if self.queue.len() < self.capacity {
            let ghost before = queue_view(self.queue@);
            self.queue.push_back(pkt);
            proof {
                assert(queue_view(self.queue@) =~= before.push(pkt@));
            }
            Delivery::Queued
        } else if kick_slow {
            self.open = false;
            Delivery::Kicked
        } else {
            if self.dropped < u64::MAX {
                self.dropped += 1;
            }
            Delivery::Dropped
        }
    }

    /// Offers a packet from the device to the port if the packet is for it.
    fn fan_out(&mut self, pkt: &Packet, kick_slow: bool) -> (r: Delivery)
        ensures
            final(self)@ == fan_out_one(old(self)@, pkt@, kick_slow).0,
            r == fan_out_one(old(self)@, pkt@, kick_slow).1,
    {
        if self.open && route_matches(&self.subtree, &pkt.routing, Some(self.depth))
            && self.accepts.lets_through(pkt.payload.traffic()) {
            self.offer(pkt.clone(), kick_slow)
        } else {
            Delivery::Skipped
        }
    }
}

/// What a vector of ports holds.
pub open spec fn ports_view(ports: Seq<Port>) -> Seq<PortView> {
    ports.map_values(|p: Port| p@)
}

/// Shares one device link among many ports.
#[derive(Debug)]
pub struct Proxy {
    ports: Vec<Port>,
    kick_slow: bool,
    next_id: u16,
    pending: Vec<PendingRpc>,
    link: LinkState,
}

impl View for Proxy {
    type V = ProxyView;

    closed spec fn view(&self) -> ProxyView {
        ProxyView {
            ports: ports_view(self.ports@),
            kick_slow: self.kick_slow,
            next_id: self.next_id,
            pending: self.pending@,
            link: self.link,
        }
    }
}

/// The payload of an answer under another id.
fn answer_with_id(payload: &Payload, id: u16) -> (r: Payload)
    ensures
        r@ == with_answer_id(payload@, id),
{
    match payload {
        Payload::RpcReply(reply) => Payload::RpcReply(
            crate::payload::RpcReply { id, reply: reply.reply.clone() },
        ),
        Payload::RpcError(error) => Payload::RpcError(
            crate::payload::RpcError { id, error: error.error, message: error.message.clone() },
        ),
        _ => payload.clone(),
    }
}

impl Proxy {
    /// A proxy without ports and without a link.
    pub fn new(kick_slow: bool) -> (r: Proxy)
        ensures
            r@ == (ProxyView {
                ports: Seq::empty(),
                kick_slow,
                next_id: 0,
                pending: Seq::empty(),
                link: LinkState::Disconnected,
            }),
    {
        let r = Proxy {
            ports: Vec::new(),
            kick_slow,
            next_id: 0,
            pending: Vec::new(),
            link: LinkState::Disconnected,
        };
        proof {
            assert(ports_view(r.ports@) =~= Seq::empty());
        }
        r
    }

    /// Adds a port that looks at the devices up to `depth` levels below
    /// `subtree` and takes the kinds of traffic that `accepts` lets through,
    /// with a queue of `capacity` packets, and returns its number.
    pub fn new_port(
        &mut self,
        subtree: DeviceRoute,
        depth: usize,
        accepts: TrafficFilter,
        rpc: bool,
        capacity: usize,
    ) -> (id: usize)
        ensures
            id == old(self)@.ports.len(),
            final(self)@ == (ProxyView {
                ports: old(self)@.ports.push(
                    PortView {
                        subtree: subtree@,
                        depth,
                        accepts,
                        rpc,
                        capacity,
                        queue: Seq::empty(),
                        dropped: 0,
                        open: true,
                    },
                ),
                ..old(self)@
            }),
    {
        let ghost ports = ports_view(self.ports@);
        let id = self.ports.len();
        let port = Port {
            subtree,
            depth,
            accepts,
            rpc,
            capacity,
            queue: VecDeque::new(),
            dropped: 0,
            open: true,
        };
        proof {
            assert(queue_view(port.queue@) =~= Seq::empty());
        }
        self.ports.push(port);
        proof {
            assert(ports_view(self.ports@) =~= ports.push(port@));
        }
        id
    }

    /// Whether the proxy has its link to the device.
    pub fn link(&self) -> (r: LinkState)
        ensures
            r == self@.link,
    {
        self.link
    }

    /// Takes note of what happened to the link.
    pub fn on_link(&mut self, event: LinkEvent)
        ensures
            final(self)@ == (ProxyView {
                link: link_after(old(self)@.link, event),
                ..old(self)@
            }),
    {
        self.link = link_step(self.link, event);
    }

    /// Number of ports, open or closed.
    pub fn port_count(&self) -> (n: usize)
        ensures
            n == self@.ports.len(),
    {
        self.ports.len()
    }

    /// Packets that a port lost because its queue was full.
    pub fn dropped(&self, port: usize) -> (n: u64)
        requires
            port < self@.ports.len(),
        ensures
            n == self@.ports[port as int].dropped,
    {
        self.ports[port].dropped
    }

    /// Whether a port is open.
    pub fn is_open(&self, port: usize) -> (r: bool)
        requires
            port < self@.ports.len(),
        ensures
            r == self@.ports[port as int].open,
    {
        self.ports[port].open
    }

    /// Number of requests on their way.
    pub fn pending_count(&self) -> (n: usize)
        ensures
            n == self@.pending.len(),
    {
        self.pending.len()
    }

    /// Position of the request that went out under `id`, or the number of
    /// requests on their way.
    fn find_pending(&self, id: u16) -> (k: usize)
        ensures
            k == first_where(self@.pending, has_wire_id(id)),
            k <= self.pending.len(),
    {
        let mut k: usize = 0;
        while k < self.pending.len() && self.pending[k].wire_id != id
            invariant
                k <= self.pending.len(),
                forall|j: int| 0 <= j < k ==> !has_wire_id(id)(#[trigger] self.pending@[j]),
            decreases self.pending.len() - k,
        {
            k += 1;
        }
        proof {
            lemma_first_where(self.pending@, has_wire_id(id), k as int);
        }
        k
    }

    /// The id that the next request goes out under, if one is free.
    fn find_free_id(&self) -> (r: Option<u16>)
        ensures
            r == free_id(self@),
    {
        let mut id: u16 = self.next_id;
        let mut steps: usize = 0;
        while steps < RPC_IDS
            invariant
                steps <= RPC_IDS,
                id == id_after(self.next_id, steps as nat),
                taken_run(self@.pending, self.next_id, RPC_IDS as nat) == steps + taken_run(
                    self@.pending,
                    id,
                    (RPC_IDS - steps) as nat,
                ),
            decreases RPC_IDS - steps,
        {
            if self.find_pending(id) == self.pending.len() {
                return Some(id);
            }
            proof {
                assert(id_after(id, 1) == id_after(self.next_id, (steps + 1) as nat));
            }
            id = if id == u16::MAX {
                0
            } else {
                id + 1
            };
            steps += 1;
        }
        None
    }

    /// Takes in a packet that came from the device and returns what became of
    /// it at each port.
    pub fn deliver(&mut self, pkt: &Packet) -> (r: Vec<Delivery>)
        ensures
            final(self)@ == deliver(old(self)@, pkt@).0,
            r@ == deliver(old(self)@, pkt@).1,
    {
        let ghost st = self@;
        let answered_id = match &pkt.payload {
            Payload::RpcReply(reply) => Some(reply.id),
            Payload::RpcError(error) => Some(error.id),
            _ => None,
        };
        let entry = match answered_id {
            Some(id) => {
                let k = self.find_pending(id);
                if k < self.pending.len() {
                    Some(self.pending.remove(k))
                } else {
                    None
                }
            },
            None => None,
        };
        let mut out: Vec<Delivery> = Vec::new();
        let n = self.ports.len();
        let mut i: usize = 0;
        let ghost pending_after = self.pending@;
        match entry {
            Some(entry) => {
                let answer = Packet {
                    payload: answer_with_id(&pkt.payload, entry.original_id),
                    routing: pkt.routing.clone(),
                    ttl: pkt.ttl,
                };
                proof {
                    lemma_first_where_bounds(st.pending, has_wire_id(answered_id->Some_0));
                    assert(answered(st, pkt@) is Some);
                    assert(entry == st.pending[answered(st, pkt@)->Some_0]);
                }
                while i < n
                    invariant
                        i <= n,
                        n == st.ports.len(),
                        self.ports.len() == n,
                        out.len() == i,
                        self.kick_slow == st.kick_slow,
                        self.next_id == st.next_id,
                        self.link == st.link,
                        self.pending@ == pending_after,
                        forall|j: int|
                            0 <= j < i ==> (#[trigger] self.ports@[j])@ == (if j == entry.port
                                && st.ports[j].open {
                                offer(st.ports[j], answer@, st.kick_slow).0
                            } else {
                                st.ports[j]
                            }),
                        forall|j: int|
                            0 <= j < i ==> (#[trigger] out@[j]) == (if j == entry.port
                                && st.ports[j].open {
                                offer(st.ports[j], answer@, st.kick_slow).1
                            } else {
                                Delivery::Skipped
                            }),
                        forall|j: int| i <= j < n ==> (#[trigger] self.ports@[j])@ == st.ports[j],
                    decreases n - i,
                {
                    if i == entry.port && self.ports[i].open {
                        let outcome = self.ports[i].offer(answer.clone(), self.kick_slow);
                        out.push(outcome);
                    } else {
                        out.push(Delivery::Skipped);
                    }
                    i += 1;
                }
                proof {
                    assert(ports_view(self.ports@) =~= deliver(st, pkt@).0.ports);
                    assert(out@ =~= deliver(st, pkt@).1);
                }
            },
            None => {
                proof {
                    if answered_id is Some {
                        lemma_first_where_bounds(st.pending, has_wire_id(answered_id->Some_0));
                    }
                    assert(answered(st, pkt@) is None);
                }
                while i < n
                    invariant
                        i <= n,
                        n == st.ports.len(),
                        self.ports.len() == n,
                        out.len() == i,
                        self.kick_slow == st.kick_slow,
                        self.next_id == st.next_id,
                        self.link == st.link,
                        self.pending@ == pending_after,
                        forall|j: int|
                            0 <= j < i ==> (#[trigger] self.ports@[j])@ == fan_out_one(
                                st.ports[j],
                                pkt@,
                                st.kick_slow,
                            ).0,
                        forall|j: int|
                            0 <= j < i ==> (#[trigger] out@[j]) == fan_out_one(
                                st.ports[j],
                                pkt@,
                                st.kick_slow,
                            ).1,
                        forall|j: int| i <= j < n ==> (#[trigger] self.ports@[j])@ == st.ports[j],
                    decreases n - i,
                {
                    let outcome = self.ports[i].fan_out(pkt, self.kick_slow);
                    out.push(outcome);
                    i += 1;
                }
                proof {
                    assert(ports_view(self.ports@) =~= deliver(st, pkt@).0.ports);
                    assert(out@ =~= deliver(st, pkt@).1);
                }
            },
        }
        out
    }

    /// Takes in a packet that a port wants sent and returns the packet to put
    /// on the link.
    pub fn send(&mut self, port: usize, pkt: Packet) -> (r: Result<Packet, SendError>)
        ensures
            final(self)@ == send(old(self)@, port, pkt@).0,
            match send(old(self)@, port, pkt@).1 {
                Ok(out) => r is Ok && r->Ok_0@ == out,
                Err(e) => r == Err::<Packet, _>(e),
            },
    {
        if port >= self.ports.len() {
            return Err(SendError::NoSuchPort);
        }
        if !self.ports[port].open {
            return Err(SendError::Closed);
        }
        if self.link == LinkState::Failed {
            return Err(SendError::TransportGone);
        }
        if !self.ports[port].rpc {
            return Ok(pkt);
        }
        let Packet { payload, routing, ttl } = pkt;
        match payload {
            Payload::RpcRequest(request) => {
                match self.find_free_id() {
                    Some(id) => {
                        self.pending.push(
                            PendingRpc { wire_id: id, port, original_id: request.id },
                        );
                        self.next_id = if id == u16::MAX {
                            0
                        } else {
                            id + 1
                        };
                        Ok(
                            Packet {
                                payload: Payload::RpcRequest(
                                    crate::payload::RpcRequest {
                                        id,
                                        method: request.method,
                                        arg: request.arg,
                                    },
                                ),
                                routing,
                                ttl,
                            },
                        )
                    },
                    None => Err(SendError::NoFreeId),
                }
            },
            other => Ok(Packet { payload: other, routing, ttl }),
        }
    }

    /// Hands the oldest packet of a port's queue to the port's owner.
    pub fn recv(&mut self, port: usize) -> (r: Result<Packet, RecvError>)
        ensures
            final(self)@ == recv(old(self)@, port).0,
            match recv(old(self)@, port).1 {
                Ok(out) => r is Ok && r->Ok_0@ == out,
                Err(e) => r == Err::<Packet, _>(e),
            },
    {
        if port >= self.ports.len() {
            return Err(RecvError::NoSuchPort);
        }
        if self.link == LinkState::Failed {
            return Err(RecvError::TransportGone);
        }
        if !self.ports[port].open {
            return Err(RecvError::Closed);
        }
        let ghost ports = ports_view(self.ports@);
        let ghost queue = queue_view(self.ports@[port as int].queue@);
        match self.ports[port].queue.pop_front() {
            Some(pkt) => {
                proof {
                    assert(queue_view(self.ports@[port as int].queue@) =~= queue.skip(1));
                    assert(queue[0] == pkt@);
                    let p = ports[port as int];
                    assert(ports_view(self.ports@) =~= ports.update(
                        port as int,
                        PortView { queue: p.queue.skip(1), ..p },
                    ));
                }
                Ok(pkt)
            },
            None => {
                proof {
                    assert(queue.len() == 0);
                    assert(ports_view(self.ports@) =~= ports);
                }
                Err(RecvError::WouldBlock)
            },
        }
    }

    /// Closes a port: it gets no more packets, and its requests are no longer
    /// on their way.
    pub fn close_port(&mut self, port: usize)
        ensures
            final(self)@ == close(old(self)@, port),
    {
        if port >= self.ports.len() {
            return ;
        }
        let ghost ports = ports_view(self.ports@);
        self.ports[port].open = false;
        proof {
            assert(ports_view(self.ports@) =~= ports.update(
                port as int,
                PortView { open: false, ..ports[port as int] },
            ));
        }
        let ghost all = self.pending@;
        let mut kept: Vec<PendingRpc> = Vec::new();
        let mut i: usize = 0;
        proof {
            assert(all.take(0) =~= Seq::<PendingRpc>::empty());
        }
        while i < self.pending.len()
            invariant
                i <= self.pending.len(),
                all == self.pending@,
                kept@ == without_port(all.take(i as int), port),
            decreases self.pending.len() - i,
        {
            proof {
                let next = all.take(i + 1);
                assert(next.drop_last() =~= all.take(i as int));
                assert(next.last() == all[i as int]);
            }
            if self.pending[i].port != port {
                kept.push(self.pending[i]);
            }
            i += 1;
        }
        proof {
            assert(all.take(all.len() as int) =~= all);
        }
        self.pending = kept;
    }

    /// Takes note that the request that went out under `wire_id` timed out.
    pub fn expire(&mut self, wire_id: u16)
        ensures
            final(self)@ == expire(old(self)@, wire_id),
    {
        let k = self.find_pending(wire_id);
        if k < self.pending.len() {
            self.pending.remove(k);
        }
    }
}

/// What a packet from the device does to a port, unless the packet answers a
/// request on its way: a port that the packet is for and that has room gets
/// it at the end of its queue; a port that it is not for is left as it is.
/// No port loses a packet that it held, and the order of those is kept.
pub proof fn lemma_fan_out(st: ProxyView, pkt: PacketView, i: int)
    requires
        answered(st, pkt) is None,
        0 <= i < st.ports.len(),
    ensures
        ({
            let before = st.ports[i];
            let after = deliver(st, pkt).0.ports[i];
            &&& deliver(st, pkt).0.ports.len() == st.ports.len()
            &&& in_scope(before, pkt) && before.queue.len() < before.capacity ==> after.queue
                == before.queue.push(pkt) && deliver(st, pkt).1[i] == Delivery::Queued
            &&& !in_scope(before, pkt) ==> after == before && deliver(st, pkt).1[i]
                == Delivery::Skipped
            &&& in_scope(before, pkt) && before.queue.len() >= before.capacity ==> after.queue
                == before.queue && (if st.kick_slow {
                !after.open && deliver(st, pkt).1[i] == Delivery::Kicked
            } else {
                after.dropped >= before.dropped && deliver(st, pkt).1[i] == Delivery::Dropped
            })
        }),
{
}

/// What the proxy holds after a run of packets came from the device.
pub open spec fn deliver_all(st: ProxyView, pkts: Seq<PacketView>) -> ProxyView
    decreases pkts.len(),
{
    if pkts.len() == 0 {
        st
    } else {
        deliver(deliver_all(st, pkts.drop_last()), pkts.last()).0
    }
}

/// The packets of a run that a port wants, in the order of the run.
pub open spec fn scoped(pkts: Seq<PacketView>, port: PortView) -> Seq<PacketView>
    decreases pkts.len(),
{
    if pkts.len() == 0 {
        Seq::empty()
    } else if wanted(port, pkts.last()) {
        scoped(pkts.drop_last(), port).push(pkts.last())
    } else {
        scoped(pkts.drop_last(), port)
    }
}

/// The packets of a run that a port wants are no more than the run has.
pub proof fn lemma_scoped_len(pkts: Seq<PacketView>, port: PortView)
    ensures
        scoped(pkts, port).len() <= pkts.len(),
    decreases pkts.len(),
{
    if pkts.len() > 0 {
        lemma_scoped_len(pkts.drop_last(), port);
    }
}

/// An open port with room for a run of packets from the device, none of which
/// answers a request, holds after the run what it held before, followed by
/// the packets of the run that it wants, in the order in which they came.
pub proof fn lemma_wire_order(st: ProxyView, pkts: Seq<PacketView>, i: int)
    requires
        0 <= i < st.ports.len(),
        st.ports[i].open,
        st.ports[i].queue.len() + pkts.len() <= st.ports[i].capacity,
        forall|k: int| 0 <= k < pkts.len() ==> answered_id((#[trigger] pkts[k]).payload) is None,
    ensures
        deliver_all(st, pkts).ports.len() == st.ports.len(),
        deliver_all(st, pkts).pending == st.pending,
        deliver_all(st, pkts).kick_slow == st.kick_slow,
        deliver_all(st, pkts).ports[i] == (PortView {
            queue: st.ports[i].queue + scoped(pkts, st.ports[i]),
            ..st.ports[i]
        }),
    decreases pkts.len(),
{
    let port = st.ports[i];
    if pkts.len() == 0 {
        assert(port.queue + scoped(pkts, port) =~= port.queue);
    } else {
        let head = pkts.drop_last();
        let last = pkts.last();
        lemma_wire_order(st, head, i);
        lemma_scoped_len(head, port);
        let mid = deliver_all(st, head);
        assert(answered(mid, last) is None);
        lemma_fan_out(mid, last, i);
        let held = port.queue + scoped(head, port);
        assert(wanted(mid.ports[i], last) == wanted(port, last));
        if wanted(port, last) {
            assert(held.push(last) =~= port.queue + scoped(pkts, port));
        }
    }
}

/// The answer to a request on its way reaches the port that sent the request,
/// under the id that the port chose, and leaves every other port as it is.
/// The request is then no longer on its way.
pub proof fn lemma_answer_goes_to_sender(st: ProxyView, pkt: PacketView, i: int)
    requires
        answered(st, pkt) is Some,
        0 <= i < st.ports.len(),
    ensures
        ({
            let entry = st.pending[answered(st, pkt)->Some_0];
            let after = deliver(st, pkt).0;
            let answer = PacketView {
                payload: with_answer_id(pkt.payload, entry.original_id),
                ..pkt
            };
            &&& 0 <= answered(st, pkt)->Some_0 < st.pending.len()
            &&& Some(entry.wire_id) == answered_id(pkt.payload)
            &&& answered_id(answer.payload) == Some(entry.original_id)
            &&& after.pending.len() == st.pending.len() - 1
            &&& i != entry.port ==> after.ports[i] == st.ports[i]
            &&& i == entry.port && st.ports[i].open && st.ports[i].queue.len()
                < st.ports[i].capacity ==> after.ports[i].queue == st.ports[i].queue.push(answer)
        }),
{
    let id = answered_id(pkt.payload)->Some_0;
    lemma_first_where_bounds(st.pending, has_wire_id(id));
}

/// Taking a request off the list of those on their way does not change which
/// request another id belongs to.
pub proof fn lemma_other_request_stays(pending: Seq<PendingRpc>, gone: u16, id: u16)
    requires
        gone != id,
        first_where(pending, has_wire_id(gone)) < pending.len(),
        first_where(pending, has_wire_id(id)) < pending.len(),
    ensures
        ({
            let j = first_where(pending, has_wire_id(gone));
            let k = first_where(pending, has_wire_id(id));
            let rest = pending.remove(j);
            let k2 = first_where(rest, has_wire_id(id));
            &&& k2 == if j < k {
                k - 1
            } else {
                k
            }
            &&& 0 <= k2 < rest.len()
            &&& rest[k2] == pending[k]
        }),
{
    let j = first_where(pending, has_wire_id(gone));
    let k = first_where(pending, has_wire_id(id));
    lemma_first_where_bounds(pending, has_wire_id(gone));
    lemma_first_where_bounds(pending, has_wire_id(id));
    let rest = pending.remove(j);
    let k2 = if j < k {
        k - 1
    } else {
        k
    };
    assert forall|x: int| 0 <= x < k2 implies !has_wire_id(id)(#[trigger] rest[x]) by {
        if x < j {
            assert(rest[x] == pending[x]);
        } else {
            assert(rest[x] == pending[x + 1]);
        }
    }
    lemma_first_where(rest, has_wire_id(id), k2);
}

/// The answers to two requests of different ports reach their ports in
/// whatever order they arrive: the proxy ends up the same.
pub proof fn lemma_answers_commute(st: ProxyView, first: PacketView, second: PacketView)
    requires
        answered(st, first) is Some,
        answered(st, second) is Some,
        answered_id(first.payload) != answered_id(second.payload),
        st.pending[answered(st, first)->Some_0].port != st.pending[answered(
            st,
            second,
        )->Some_0].port,
    ensures
        deliver(deliver(st, first).0, second).0 == deliver(deliver(st, second).0, first).0,
{
    let a = answered_id(first.payload)->Some_0;
    let b = answered_id(second.payload)->Some_0;
    let ka = first_where(st.pending, has_wire_id(a));
    let kb = first_where(st.pending, has_wire_id(b));
    lemma_first_where_bounds(st.pending, has_wire_id(a));
    lemma_first_where_bounds(st.pending, has_wire_id(b));
    lemma_other_request_stays(st.pending, a, b);
    lemma_other_request_stays(st.pending, b, a);
    let one = deliver(st, first).0;
    let other = deliver(st, second).0;
    let left = deliver(one, second).0;
    let right = deliver(other, first).0;
    assert(answered(one, second) is Some);
    assert(answered(other, first) is Some);
    assert(one.pending[answered(one, second)->Some_0] == st.pending[kb]);
    assert(other.pending[answered(other, first)->Some_0] == st.pending[ka]);
    assert(left.pending =~= right.pending);
    assert(left.ports =~= right.ports);
}

/// Whether no two requests on their way went out under the same id.
pub open spec fn ids_distinct(pending: Seq<PendingRpc>) -> bool {
    forall|i: int, j: int|
        0 <= i < j < pending.len() ==> (#[trigger] pending[i]).wire_id != (
        #[trigger] pending[j]).wire_id
}

/// The ids from `start` up to the first free one are taken, and the first
/// free one is free.
pub proof fn lemma_taken_run(pending: Seq<PendingRpc>, start: u16, limit: nat)
    ensures
        taken_run(pending, start, limit) <= limit,
        taken_run(pending, start, limit) < limit ==> !id_taken(
            pending,
            id_after(start, taken_run(pending, start, limit)),
        ),
    decreases limit,
{
    if limit > 0 && id_taken(pending, start) {
        let next = id_after(start, 1);
        lemma_taken_run(pending, next, (limit - 1) as nat);
        let run = taken_run(pending, next, (limit - 1) as nat);
        assert(id_after(next, run) == id_after(start, run + 1));
    } else if limit > 0 {
        assert(id_after(start, 0) == start);
    }
}

/// The id that a request goes out under is used by no request on its way.
pub proof fn lemma_free_id_is_free(st: ProxyView)
    ensures
        free_id(st) is Some ==> !id_taken(st.pending, free_id(st)->Some_0),
{
    lemma_taken_run(st.pending, st.next_id, RPC_IDS as nat);
}

/// Sending keeps the ids of the requests on their way distinct.
pub proof fn lemma_send_keeps_distinct(st: ProxyView, port: usize, pkt: PacketView)
    requires
        ids_distinct(st.pending),
    ensures
        ids_distinct(send(st, port, pkt).0.pending),
{
    let after = send(st, port, pkt).0.pending;
    if after != st.pending {
        lemma_free_id_is_free(st);
        let id = free_id(st)->Some_0;
        lemma_first_where_bounds(st.pending, has_wire_id(id));
        assert forall|i: int, j: int| 0 <= i < j < after.len() implies (#[trigger] after[i]).wire_id
            != (#[trigger] after[j]).wire_id by {
            if j == st.pending.len() {
                assert(!has_wire_id(id)(st.pending[i]));
            }
        }
    }
}

/// Taking a request off the list keeps the ids of the others distinct.
pub proof fn lemma_remove_keeps_distinct(pending: Seq<PendingRpc>, k: int)
    requires
        ids_distinct(pending),
        0 <= k < pending.len(),
    ensures
        ids_distinct(pending.remove(k)),
{
    let after = pending.remove(k);
    assert forall|i: int, j: int| 0 <= i < j < after.len() implies (#[trigger] after[i]).wire_id
        != (#[trigger] after[j]).wire_id by {
        let a = if i < k {
            i
        } else {
            i + 1
        };
        let b = if j < k {
            j
        } else {
            j + 1
        };
        assert(after[i] == pending[a]);
        assert(after[j] == pending[b]);
    }
}

/// A packet from the device, and a timeout, keep the ids of the requests on
/// their way distinct.
pub proof fn lemma_deliver_keeps_distinct(st: ProxyView, pkt: PacketView, wire_id: u16)
    requires
        ids_distinct(st.pending),
    ensures
        ids_distinct(deliver(st, pkt).0.pending),
        ids_distinct(expire(st, wire_id).pending),
{
    if answered(st, pkt) is Some {
        let id = answered_id(pkt.payload)->Some_0;
        lemma_first_where_bounds(st.pending, has_wire_id(id));
        lemma_remove_keeps_distinct(st.pending, answered(st, pkt)->Some_0);
    }
    lemma_first_where_bounds(st.pending, has_wire_id(wire_id));
    let k = first_where(st.pending, has_wire_id(wire_id));
    if k < st.pending.len() {
        lemma_remove_keeps_distinct(st.pending, k);
    }
}

/// With distinct ids, the request that a packet answers is the only request
/// on its way that went out under the packet's id.
pub proof fn lemma_answer_is_unique(st: ProxyView, pkt: PacketView, j: int)
    requires
        ids_distinct(st.pending),
        answered(st, pkt) is Some,
        0 <= j < st.pending.len(),
        Some(st.pending[j].wire_id) == answered_id(pkt.payload),
    ensures
        j == answered(st, pkt)->Some_0,
{
    let id = answered_id(pkt.payload)->Some_0;
    lemma_first_where_bounds(st.pending, has_wire_id(id));
}

/// Leaving out the requests of a port keeps the order of the others: each
/// request that stays is followed by those that followed it before.
pub proof fn lemma_without_port(pending: Seq<PendingRpc>, port: usize)
    ensures
        without_port(pending, port).len() <= pending.len(),
        forall|i: int|
            0 <= i < without_port(pending, port).len() ==> (#[trigger] without_port(
                pending,
                port,
            )[i]).port != port && pending.contains(without_port(pending, port)[i]),
        ids_distinct(pending) ==> ids_distinct(without_port(pending, port)),
    decreases pending.len(),
{
    if pending.len() > 0 {
        let head = pending.drop_last();
        let kept = without_port(head, port);
        lemma_without_port(head, port);
        let after = without_port(pending, port);
        assert forall|i: int| 0 <= i < after.len() implies (#[trigger] after[i]).port != port
            && pending.contains(after[i]) by {
            if i < kept.len() {
                assert(head.contains(kept[i]));
                let x = choose|x: int| 0 <= x < head.len() && head[x] == kept[i];
                assert(pending[x] == kept[i]);
            } else {
                assert(after[i] == pending.last());
                assert(pending[pending.len() - 1] == after[i]);
            }
        }
        if ids_distinct(pending) {
            assert(ids_distinct(head)) by {
                assert forall|i: int, j: int| 0 <= i < j < head.len() implies (
                #[trigger] head[i]).wire_id != (#[trigger] head[j]).wire_id by {
                    assert(head[i] == pending[i] && head[j] == pending[j]);
                }
            }
            assert forall|i: int, j: int| 0 <= i < j < after.len() implies (
            #[trigger] after[i]).wire_id != (#[trigger] after[j]).wire_id by {
                if j == kept.len() {
                    assert(head.contains(kept[i]));
                    let x = choose|x: int| 0 <= x < head.len() && head[x] == kept[i];
                    assert(pending[x] == kept[i]);
                    assert(pending[pending.len() - 1] == after[j]);
                }
            }
        }
    }
}

} // verus!
