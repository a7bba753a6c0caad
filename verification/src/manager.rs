//! The two manager state machines. Each models one event-loop iteration of
//! the hub's single worker thread: the caller (which owns the sockets, the
//! channels, and the thread) waits on the enabled branches, feeds the
//! winning event in, and carries out the decision handed back — which
//! socket to start a send on, which handle keys to deliver a message to,
//! which specs to apply, or to stop.
//!
//! The discipline that matters is in the contracts: a registry's receive
//! side may be armed only while no send on its socket is outstanding, so
//! there is at most one in-flight send per external socket; stream handles
//! may not be added to the server once stream specs were applied, so the
//! hash modulus stays frozen; and nothing moves after a stop.

use vstd::prelude::*;

use crate::packet::{bytes_eq, first_pos, ids_of, parse_ids, BSPACE};
use crate::registry::{
    hash_targets, last_valid_upto, req_targets, FilteredPipe, PlainPipe, Prefix, ReqHandles,
    ServerReqHandles, ServerStreamHandles, StreamHandles,
};
use crate::HANDLES_MAX;

verus! {

/// A bind-or-connect endpoint, applied to a socket in a batch.
#[derive(Clone)]
pub struct SpecInfo {
    pub spec: String,
    pub bind: bool,
    pub ipc_file_mode: u32,
}

/// What the owning thread asks of the client manager.
pub enum ControlRequest {
    Stop,
    SetClientReq(Vec<SpecInfo>),
    SetClientStream(Vec<SpecInfo>, Vec<SpecInfo>, Vec<SpecInfo>),
    AddClientReqHandle(Prefix),
    AddClientStreamHandle(Prefix),
}

/// What the owning thread asks of the server manager.
pub enum ServerControlRequest {
    Stop,
    SetServerReq(Vec<SpecInfo>),
    SetServerStream(Vec<SpecInfo>, Vec<SpecInfo>, Vec<SpecInfo>),
    AddServerReqHandle,
    AddServerStreamHandle,
}

/// The decision a control event resolves to. Spec batches go back to the
/// caller to apply to the sockets, acknowledging the result over the
/// control reply channel; handle registrations either hand back the new
/// entry's key or are refused.
pub enum ControlEffect {
    Stopped,
    ApplyReqSpecs(Vec<SpecInfo>),
    ApplyStreamSpecs(Vec<SpecInfo>, Vec<SpecInfo>, Vec<SpecInfo>),
    HandleAdded(u64),
    HandleRefusedFull,
    HandleRefusedSpecsApplied,
}

/// The decision an inbound socket message resolves to: deliver one shared
/// message to these handle keys in this order, or drop a malformed or
/// misaddressed frame with a warning.
pub enum InboundOutcome {
    Deliver(Vec<u64>),
    Discard,
}

/// An opaque reply-routing envelope: the routing frames captured when a
/// request was received, which must travel back verbatim with the reply.
pub struct MultipartHeader {
    pub frames: Vec<Vec<u8>>,
}

impl MultipartHeader {
    pub fn new() -> (r: Self)
        ensures
            r.frames@.len() == 0,
    {
        MultipartHeader { frames: Vec::new() }
    }

    pub fn push(&mut self, frame: Vec<u8>)
        ensures
            final(self).frames@ == old(self).frames@.push(frame),
    {
        self.frames.push(frame);
    }
}

/// The envelope for an addressed outbound stream send: the peer address as
/// the first and only routing frame.
pub fn addressed_header(addr: &crate::registry::Addr) -> (r: MultipartHeader)
    ensures
        r.frames@.len() == 1,
        r.frames@[0]@ == addr.bytes@,
{
    let mut h = MultipartHeader::new();
    h.push(vstd::slice::slice_to_vec(addr.bytes.as_slice()));
    h
}

/// The subscription filter the client's inbound socket is armed with:
/// the instance id followed by a space, so only frames addressed to this
/// instance arrive.
pub open spec fn subscription_spec(id: Seq<u8>) -> Seq<u8> {
    id + seq![BSPACE]
}

/// Splits an address-prefixed stream frame: the bytes before the first
/// space must equal the instance id, and the rest is the packet.
pub open spec fn stream_payload(id: Seq<u8>, data: Seq<u8>) -> Option<Seq<u8>> {
    match first_pos(data, BSPACE, 0) {
        None => None,
        Some(p) => if data.subrange(0, p) == id {
            Some(data.skip(p + 1))
        } else {
            None
        },
    }
}

/// The client-flavor manager state: the two registries, the one-slot send
/// state of each of the three outbound sockets, and the stop flag.
pub struct ClientManager {
    pub instance_id: Vec<u8>,
    pub req_handles: ReqHandles,
    pub stream_handles: StreamHandles,
    pub req_send_pending: bool,
    pub out_send_pending: bool,
    pub out_stream_send_pending: bool,
    pub stopped: bool,
}

impl ClientManager {
    pub open spec fn wf(&self) -> bool {
        &&& self.req_handles.wf()
        &&& self.stream_handles.wf()
        &&& self.req_handles.capacity == HANDLES_MAX
        &&& self.stream_handles.capacity == HANDLES_MAX
    }

    /// Both registries can still assign fresh keys.
    pub open spec fn keys_available(&self) -> bool {
        self.req_handles.next_key < u64::MAX && self.stream_handles.next_key < u64::MAX
    }

    pub fn new(instance_id: Vec<u8>) -> (r: Self)
        ensures
            r.wf(),
            r.instance_id == instance_id,
            r.req_handles.entries@.len() == 0,
            r.stream_handles.entries@.len() == 0,
            !r.req_send_pending,
            !r.out_send_pending,
            !r.out_stream_send_pending,
            !r.stopped,
            r.keys_available(),
    {
        ClientManager {
            instance_id,
            req_handles: ReqHandles::new(HANDLES_MAX),
            stream_handles: StreamHandles::new(HANDLES_MAX),
            req_send_pending: false,
            out_send_pending: false,
            out_stream_send_pending: false,
            stopped: false,
        }
    }

    pub fn is_stopped(&self) -> (r: bool)
        ensures
            r == self.stopped,
    {
        self.stopped
    }

    /// The subscription to arm the inbound stream socket with.
    pub fn subscription(&self) -> (r: Vec<u8>)
        ensures
            r@ == subscription_spec(self.instance_id@),
    {
        let mut out = vstd::slice::slice_to_vec(self.instance_id.as_slice());
        out.push(BSPACE);
        proof {
            assert(out@ =~= subscription_spec(self.instance_id@));
        }
        out
    }

    /// The request-registry receive branch is enabled only while no send
    /// on the request socket is outstanding.
    pub fn can_recv_req_handles(&self) -> (r: bool)
        ensures
            r == !self.req_send_pending,
    {
        !self.req_send_pending
    }

    /// The any-peer stream receive branch is enabled only while no send on
    /// the plain outbound socket is outstanding.
    pub fn can_recv_stream_any(&self) -> (r: bool)
        ensures
            r == !self.out_send_pending,
    {
        !self.out_send_pending
    }

    /// The addressed stream receive branch is enabled only while no send
    /// on the addressed outbound socket is outstanding.
    pub fn can_recv_stream_addr(&self) -> (r: bool)
        ensures
            r == !self.out_stream_send_pending,
    {
        !self.out_stream_send_pending
    }

    /// A request-registry message won the race: the caller starts the one
    /// request-socket send.
    pub fn begin_req_send(&mut self)
        requires
            old(self).wf(),
            !old(self).stopped,
            !old(self).req_send_pending,
        ensures
            final(self).wf(),
            final(self).req_send_pending,
            *final(self) == (ClientManager { req_send_pending: true, ..*old(self) }),
    {
        self.req_send_pending = true;
    }

    /// The request-socket send settled, successfully or not.
    pub fn finish_req_send(&mut self)
        requires
            old(self).wf(),
            old(self).req_send_pending,
        ensures
            final(self).wf(),
            *final(self) == (ClientManager { req_send_pending: false, ..*old(self) }),
    {
        self.req_send_pending = false;
    }

    /// An any-peer stream message won: the caller starts the one plain
    /// outbound send.
    pub fn begin_out_send(&mut self)
        requires
            old(self).wf(),
            !old(self).stopped,
            !old(self).out_send_pending,
        ensures
            final(self).wf(),
            *final(self) == (ClientManager { out_send_pending: true, ..*old(self) }),
    {
        self.out_send_pending = true;
    }

    /// The plain outbound send settled.
    pub fn finish_out_send(&mut self)
        requires
            old(self).wf(),
            old(self).out_send_pending,
        ensures
            final(self).wf(),
            *final(self) == (ClientManager { out_send_pending: false, ..*old(self) }),
    {
        self.out_send_pending = false;
    }

    /// An addressed stream message won: the caller wraps the address into
    /// a routing envelope and starts the one addressed outbound send. The
    /// socket retries that send after a delay for as long as the peer is
    /// unreachable.
    pub fn begin_out_stream_send(&mut self)
        requires
            old(self).wf(),
            !old(self).stopped,
            !old(self).out_stream_send_pending,
        ensures
            final(self).wf(),
            *final(self) == (ClientManager { out_stream_send_pending: true, ..*old(self) }),
    {
        self.out_stream_send_pending = true;
    }

    /// The addressed outbound send settled.
    pub fn finish_out_stream_send(&mut self)
        requires
            old(self).wf(),
            old(self).out_stream_send_pending,
        ensures
            final(self).wf(),
            *final(self) == (ClientManager { out_stream_send_pending: false, ..*old(self) }),
    {
        self.out_stream_send_pending = false;
    }

    /// Resolves one control message: stop, apply specs, or register a
    /// handle, refusing registration at the handle bound.
    pub fn handle_control(&mut self, c: ControlRequest) -> (r: ControlEffect)
        requires
            old(self).wf(),
            !old(self).stopped,
            old(self).keys_available(),
            c matches ControlRequest::AddClientReqHandle(p) ==> p.wf(),
            c matches ControlRequest::AddClientStreamHandle(p) ==> p.wf(),
        ensures
            final(self).wf(),
            final(self).instance_id == old(self).instance_id,
            final(self).req_send_pending == old(self).req_send_pending,
            final(self).out_send_pending == old(self).out_send_pending,
            final(self).out_stream_send_pending == old(self).out_stream_send_pending,
            c matches ControlRequest::Stop ==> final(self).stopped && r
                == ControlEffect::Stopped && final(self).req_handles == old(self).req_handles
                && final(self).stream_handles == old(self).stream_handles,
            !(c matches ControlRequest::Stop) ==> !final(self).stopped,
            c matches ControlRequest::SetClientReq(s) ==> r == (ControlEffect::ApplyReqSpecs(s))
                && final(self).req_handles == old(self).req_handles && final(self).stream_handles == old(self).stream_handles,
            c matches ControlRequest::SetClientStream(a, b, d) ==> r == (
            ControlEffect::ApplyStreamSpecs(a, b, d)) && final(self).req_handles == old(self).req_handles && final(self).stream_handles == old(self).stream_handles,
            c matches ControlRequest::AddClientReqHandle(p) ==> (if old(self).req_handles.entries@.len() + old(self).stream_handles.entries@.len()
                < HANDLES_MAX {
                r == (ControlEffect::HandleAdded(old(self).req_handles.next_key)) && final(self).req_handles.entries@ == old(self).req_handles.entries@.push(
                    (FilteredPipe { key: old(self).req_handles.next_key, filter: p, valid: true }),
                ) && final(self).stream_handles == old(self).stream_handles
            } else {
                r == ControlEffect::HandleRefusedFull && final(self).req_handles == old(self).req_handles && final(self).stream_handles == old(self).stream_handles
            }),
            c matches ControlRequest::AddClientStreamHandle(p) ==> (if old(self).req_handles.entries@.len() + old(self).stream_handles.entries@.len()
                < HANDLES_MAX {
                r == (ControlEffect::HandleAdded(old(self).stream_handles.next_key)) && final(self).stream_handles.entries@ == old(self).stream_handles.entries@.push(
                    (FilteredPipe {
                        key: old(self).stream_handles.next_key,
                        filter: p,
                        valid: true,
                    }),
                ) && final(self).req_handles == old(self).req_handles
            } else {
                r == ControlEffect::HandleRefusedFull && final(self).req_handles == old(self).req_handles && final(self).stream_handles == old(self).stream_handles
            }),
    {
        match c {
            ControlRequest::Stop => {
                self.stopped = true;
                ControlEffect::Stopped
            },
            ControlRequest::SetClientReq(specs) => ControlEffect::ApplyReqSpecs(specs),
            ControlRequest::SetClientStream(out_specs, out_stream_specs, in_specs) => {
                ControlEffect::ApplyStreamSpecs(out_specs, out_stream_specs, in_specs)
            },
            ControlRequest::AddClientReqHandle(p) => {
                if self.req_handles.len() + self.stream_handles.len() < HANDLES_MAX {
                    let k = self.req_handles.add(p);
                    ControlEffect::HandleAdded(k)
                } else {
                    ControlEffect::HandleRefusedFull
                }
            },
            ControlRequest::AddClientStreamHandle(p) => {
                if self.req_handles.len() + self.stream_handles.len() < HANDLES_MAX {
                    let k = self.stream_handles.add(p);
                    ControlEffect::HandleAdded(k)
                } else {
                    ControlEffect::HandleRefusedFull
                }
            },
        }
    }

    /// Routes one frame from the request socket: parse its identifier
    /// list and fan it out to every matching valid request handle; a
    /// malformed packet is dropped with a warning.
    pub fn handle_req_message(&self, data: &[u8]) -> (r: InboundOutcome)
        requires
            !self.stopped,
        ensures
            (match ids_of(data@) {
                None => r == InboundOutcome::Discard,
                Some(ids) => r matches InboundOutcome::Deliver(ks) && ks@ == req_targets(
                    self.req_handles.entries@,
                    ids,
                ),
            }),
    {
        match parse_ids(data) {
            Err(_) => InboundOutcome::Discard,
            Ok(ids) => InboundOutcome::Deliver(self.req_handles.dispatch(&ids)),
        }
    }

    /// Routes one frame from the subscribed stream socket: the address
    /// before the first space must be this instance's id, and the rest is
    /// parsed and fanned out to the matching valid stream handles.
    pub fn handle_stream_message(&self, data: &[u8]) -> (r: InboundOutcome)
        requires
            !self.stopped,
        ensures
            (match stream_payload(self.instance_id@, data@) {
                None => r == InboundOutcome::Discard,
                Some(payload) => (match ids_of(payload) {
                    None => r == InboundOutcome::Discard,
                    Some(ids) => r matches InboundOutcome::Deliver(ks) && ks@ == req_targets(
                        self.stream_handles.entries@,
                        ids,
                    ),
                }),
            }),
    {
        let len = data.len();
        let pos = match crate::packet::find_byte(data, BSPACE) {
            Some(p) => p,
            None => {
                return InboundOutcome::Discard;
            },
        };
        let addr: &[u8] = &data[0..pos];
        proof {
            assert(addr@ == data@.subrange(0, pos as int));
        }
        if !bytes_eq(addr, self.instance_id.as_slice()) {
            return InboundOutcome::Discard;
        }
        let payload: &[u8] = &data[pos + 1..len];
        proof {
            assert(payload@ == data@.skip(pos + 1));
        }
        match parse_ids(payload) {
            Err(_) => InboundOutcome::Discard,
            Ok(ids) => InboundOutcome::Deliver(self.stream_handles.dispatch(&ids)),
        }
    }

    /// The once-per-iteration cleanup pass over the request registry.
    pub fn cleanup_req_handles(&mut self) -> (removed: Vec<u64>)
        requires
            old(self).wf(),
        ensures
            final(self).wf(),
            final(self).instance_id == old(self).instance_id,
            final(self).stream_handles == old(self).stream_handles,
            final(self).stopped == old(self).stopped,
            final(self).req_send_pending == old(self).req_send_pending,
            final(self).out_send_pending == old(self).out_send_pending,
            final(self).out_stream_send_pending == old(self).out_stream_send_pending,
            old(self).req_handles.need_cleanup ==> final(self).req_handles.entries@
                == crate::registry::f_live(old(self).req_handles.entries@) && removed@
                == crate::registry::f_dead_keys(old(self).req_handles.entries@),
            !old(self).req_handles.need_cleanup ==> final(self).req_handles == old(self).req_handles && removed@.len() == 0,
            !final(self).req_handles.need_cleanup,
            final(self).req_handles.next_key == old(self).req_handles.next_key,
            final(self).req_handles.capacity == old(self).req_handles.capacity,
    {
        if self.req_handles.need_cleanup() {
            self.req_handles.cleanup()
        } else {
            Vec::new()
        }
    }

    /// The once-per-iteration cleanup pass over the stream registry.
    pub fn cleanup_stream_handles(&mut self) -> (removed: Vec<u64>)
        requires
            old(self).wf(),
        ensures
            final(self).wf(),
            final(self).instance_id == old(self).instance_id,
            final(self).req_handles == old(self).req_handles,
            final(self).stopped == old(self).stopped,
            final(self).req_send_pending == old(self).req_send_pending,
            final(self).out_send_pending == old(self).out_send_pending,
            final(self).out_stream_send_pending == old(self).out_stream_send_pending,
            old(self).stream_handles.need_cleanup ==> final(self).stream_handles.entries@
                == crate::registry::f_live(old(self).stream_handles.entries@) && removed@
                == crate::registry::f_dead_keys(old(self).stream_handles.entries@),
            !old(self).stream_handles.need_cleanup ==> final(self).stream_handles == old(self).stream_handles && removed@.len() == 0,
            !final(self).stream_handles.need_cleanup,
    {
        if self.stream_handles.need_cleanup() {
            self.stream_handles.cleanup()
        } else {
            Vec::new()
        }
    }
}

/// The server-flavor manager state. Once stream specs have been applied,
/// the stream registry is frozen against new handles so the hash modulus
/// cannot change under live peers.
pub struct ServerManager {
    pub instance_id: Vec<u8>,
    pub req_handles: ServerReqHandles,
    pub stream_handles: ServerStreamHandles,
    pub specs_applied: bool,
    pub req_send_pending: bool,
    pub out_send_pending: bool,
    pub stopped: bool,
}

impl ServerManager {
    pub open spec fn wf(&self) -> bool {
        &&& self.req_handles.wf()
        &&& self.stream_handles.wf()
        &&& self.req_handles.capacity == HANDLES_MAX
        &&& self.stream_handles.capacity == HANDLES_MAX
    }

    pub open spec fn keys_available(&self) -> bool {
        self.req_handles.next_key < u64::MAX && self.stream_handles.next_key < u64::MAX
    }

    pub fn new(instance_id: Vec<u8>) -> (r: Self)
        ensures
            r.wf(),
            r.instance_id == instance_id,
            r.req_handles.entries@.len() == 0,
            r.stream_handles.entries@.len() == 0,
            !r.specs_applied,
            !r.req_send_pending,
            !r.out_send_pending,
            !r.stopped,
            r.keys_available(),
    {
        ServerManager {
            instance_id,
            req_handles: ServerReqHandles::new(HANDLES_MAX),
            stream_handles: ServerStreamHandles::new(HANDLES_MAX),
            specs_applied: false,
            req_send_pending: false,
            out_send_pending: false,
            stopped: false,
        }
    }

    pub fn is_stopped(&self) -> (r: bool)
        ensures
            r == self.stopped,
    {
        self.stopped
    }

    /// The request-registry receive branch is enabled only while no send
    /// on the request socket is outstanding.
    pub fn can_recv_req_handles(&self) -> (r: bool)
        ensures
            r == !self.req_send_pending,
    {
        !self.req_send_pending
    }

    /// The stream-registry receive branch is enabled only while no send on
    /// the publish socket is outstanding.
    pub fn can_recv_stream_handles(&self) -> (r: bool)
        ensures
            r == !self.out_send_pending,
    {
        !self.out_send_pending
    }

    /// A request-registry reply won the race: the caller starts the one
    /// request-socket send, with the reply's own routing envelope.
    pub fn begin_req_send(&mut self)
        requires
            old(self).wf(),
            !old(self).stopped,
            !old(self).req_send_pending,
        ensures
            final(self).wf(),
            *final(self) == (ServerManager { req_send_pending: true, ..*old(self) }),
    {
        self.req_send_pending = true;
    }

    /// The request-socket send settled.
    pub fn finish_req_send(&mut self)
        requires
            old(self).wf(),
            old(self).req_send_pending,
        ensures
            final(self).wf(),
            *final(self) == (ServerManager { req_send_pending: false, ..*old(self) }),
    {
        self.req_send_pending = false;
    }

    /// A stream-registry message won: the caller starts the one publish
    /// send.
    pub fn begin_out_send(&mut self)
        requires
            old(self).wf(),
            !old(self).stopped,
            !old(self).out_send_pending,
        ensures
            final(self).wf(),
            *final(self) == (ServerManager { out_send_pending: true, ..*old(self) }),
    {
        self.out_send_pending = true;
    }

    /// The publish send settled.
    pub fn finish_out_send(&mut self)
        requires
            old(self).wf(),
            old(self).out_send_pending,
        ensures
            final(self).wf(),
            *final(self) == (ServerManager { out_send_pending: false, ..*old(self) }),
    {
        self.out_send_pending = false;
    }

    /// Resolves one control message. Applying stream specs freezes the
    /// stream registry: later stream-handle registrations are refused so
    /// the consistent-hash modulus cannot change.
    pub fn handle_control(&mut self, c: ServerControlRequest) -> (r: ControlEffect)
        requires
            old(self).wf(),
            !old(self).stopped,
            old(self).keys_available(),
        ensures
            final(self).wf(),
            final(self).instance_id == old(self).instance_id,
            final(self).req_send_pending == old(self).req_send_pending,
            final(self).out_send_pending == old(self).out_send_pending,
            c matches ServerControlRequest::Stop ==> final(self).stopped && r
                == ControlEffect::Stopped && final(self).req_handles == old(self).req_handles
                && final(self).stream_handles == old(self).stream_handles && final(self).specs_applied == old(self).specs_applied,
            !(c matches ServerControlRequest::Stop) ==> !final(self).stopped,
            c matches ServerControlRequest::SetServerReq(s) ==> r == (
            ControlEffect::ApplyReqSpecs(s)) && final(self).req_handles == old(self).req_handles && final(self).stream_handles == old(self).stream_handles && final(self).specs_applied == old(self).specs_applied,
            c matches ServerControlRequest::SetServerStream(a, b, d) ==> r == (
            ControlEffect::ApplyStreamSpecs(a, b, d)) && final(self).req_handles == old(self).req_handles && final(self).stream_handles == old(self).stream_handles && final(self).specs_applied,
            c matches ServerControlRequest::AddServerReqHandle ==> final(self).specs_applied
                == old(self).specs_applied && (if old(self).req_handles.entries@.len() + old(self).stream_handles.entries@.len() < HANDLES_MAX {
                r == (ControlEffect::HandleAdded(old(self).req_handles.next_key)) && final(self).req_handles.entries@ == old(self).req_handles.entries@.push(
                    (PlainPipe { key: old(self).req_handles.next_key, valid: true }),
                ) && final(self).stream_handles == old(self).stream_handles
            } else {
                r == ControlEffect::HandleRefusedFull && final(self).req_handles == old(self).req_handles && final(self).stream_handles == old(self).stream_handles
            }),
            c matches ServerControlRequest::AddServerStreamHandle ==> final(self).specs_applied
                == old(self).specs_applied && (if old(self).specs_applied {
                r == ControlEffect::HandleRefusedSpecsApplied && final(self).req_handles == old(self).req_handles && final(self).stream_handles == old(self).stream_handles
            } else if old(self).req_handles.entries@.len() + old(self).stream_handles.entries@.len() < HANDLES_MAX {
                r == (ControlEffect::HandleAdded(old(self).stream_handles.next_key)) && final(self).stream_handles.entries@ == old(self).stream_handles.entries@.push(
                    (PlainPipe { key: old(self).stream_handles.next_key, valid: true }),
                ) && final(self).req_handles == old(self).req_handles
            } else {
                r == ControlEffect::HandleRefusedFull && final(self).req_handles == old(self).req_handles && final(self).stream_handles == old(self).stream_handles
            }),
    {
        match c {
            ServerControlRequest::Stop => {
                self.stopped = true;
                ControlEffect::Stopped
            },
            ServerControlRequest::SetServerReq(specs) => ControlEffect::ApplyReqSpecs(specs),
            ServerControlRequest::SetServerStream(in_specs, in_stream_specs, out_specs) => {
                self.specs_applied = true;
                ControlEffect::ApplyStreamSpecs(in_specs, in_stream_specs, out_specs)
            },
            ServerControlRequest::AddServerReqHandle => {
                if self.req_handles.len() + self.stream_handles.len() < HANDLES_MAX {
                    let k = self.req_handles.add();
                    ControlEffect::HandleAdded(k)
                } else {
                    ControlEffect::HandleRefusedFull
                }
            },
            ServerControlRequest::AddServerStreamHandle => {
                if self.specs_applied {
                    ControlEffect::HandleRefusedSpecsApplied
                } else if self.req_handles.len() + self.stream_handles.len() < HANDLES_MAX {
                    let k = self.stream_handles.add();
                    ControlEffect::HandleAdded(k)
                } else {
                    ControlEffect::HandleRefusedFull
                }
            },
        }
    }

    /// Routes one captured request: the round-robin pick among the valid
    /// request handles, with the reply envelope travelling verbatim; with
    /// no handles registered the request is silently dropped.
    pub fn route_req_message(&mut self, header: MultipartHeader) -> (r: Option<(
        u64,
        MultipartHeader,
    )>)
        requires
            old(self).wf(),
            !old(self).stopped,
        ensures
            final(self).wf(),
            final(self).instance_id == old(self).instance_id,
            final(self).stream_handles == old(self).stream_handles,
            final(self).specs_applied == old(self).specs_applied,
            final(self).stopped == old(self).stopped,
            final(self).req_send_pending == old(self).req_send_pending,
            final(self).out_send_pending == old(self).out_send_pending,
            final(self).req_handles.entries == old(self).req_handles.entries,
            final(self).req_handles.next_key == old(self).req_handles.next_key,
            final(self).req_handles.capacity == old(self).req_handles.capacity,
            final(self).req_handles.need_cleanup == old(self).req_handles.need_cleanup,
            r matches Some(p) ==> p.1 == header,
            old(self).req_handles.entries@.len() == 0 ==> r is None && final(self).req_handles.send_index == old(self).req_handles.send_index,
            old(self).req_handles.entries@.len() > 0 ==> final(self).req_handles.send_index
                as int == (old(self).req_handles.send_index + 1) % (old(self).req_handles.entries@.len() as int),
            old(self).req_handles.entries@.len() > 0 ==> (match last_valid_upto(
                old(self).req_handles.entries@,
                old(self).req_handles.send_index as int,
            ) {
                Some(i) => r matches Some(p) && p.0 == old(self).req_handles.entries@[i].key,
                None => r is None,
            }),
    {
        match self.req_handles.dispatch() {
            Some(k) => Some((k, header)),
            None => None,
        }
    }

    /// Routes one inbound stream frame, from either fan-in socket: parse
    /// its identifier list and deliver once per identifier to the entry at
    /// `hash(id) mod N`; a malformed packet is dropped with a warning.
    pub fn handle_stream_message(&self, data: &[u8]) -> (r: InboundOutcome)
        requires
            !self.stopped,
        ensures
            (match ids_of(data@) {
                None => r == InboundOutcome::Discard,
                Some(ids) => r matches InboundOutcome::Deliver(ks) && ks@ == hash_targets(
                    self.stream_handles.entries@,
                    ids,
                ),
            }),
    {
        match parse_ids(data) {
            Err(_) => InboundOutcome::Discard,
            Ok(ids) => InboundOutcome::Deliver(self.stream_handles.dispatch(&ids)),
        }
    }

    /// The once-per-iteration cleanup pass over the request registry.
    pub fn cleanup_req_handles(&mut self) -> (removed: Vec<u64>)
        requires
            old(self).wf(),
        ensures
            final(self).wf(),
            final(self).instance_id == old(self).instance_id,
            final(self).stream_handles == old(self).stream_handles,
            final(self).specs_applied == old(self).specs_applied,
            final(self).stopped == old(self).stopped,
            final(self).req_send_pending == old(self).req_send_pending,
            final(self).out_send_pending == old(self).out_send_pending,
            old(self).req_handles.need_cleanup ==> final(self).req_handles.entries@
                == crate::registry::p_live(old(self).req_handles.entries@) && removed@
                == crate::registry::p_dead_keys(old(self).req_handles.entries@),
            !old(self).req_handles.need_cleanup ==> final(self).req_handles == old(self).req_handles && removed@.len() == 0,
            !final(self).req_handles.need_cleanup,
    {
        if self.req_handles.need_cleanup() {
            self.req_handles.cleanup()
        } else {
            Vec::new()
        }
    }

    /// The once-per-iteration cleanup pass over the stream registry.
    pub fn cleanup_stream_handles(&mut self) -> (removed: Vec<u64>)
        requires
            old(self).wf(),
        ensures
            final(self).wf(),
            final(self).instance_id == old(self).instance_id,
            final(self).req_handles == old(self).req_handles,
            final(self).specs_applied == old(self).specs_applied,
            final(self).stopped == old(self).stopped,
            final(self).req_send_pending == old(self).req_send_pending,
            final(self).out_send_pending == old(self).out_send_pending,
            old(self).stream_handles.need_cleanup ==> final(self).stream_handles.entries@
                == crate::registry::p_live(old(self).stream_handles.entries@) && removed@
                == crate::registry::p_dead_keys(old(self).stream_handles.entries@),
            !old(self).stream_handles.need_cleanup ==> final(self).stream_handles == old(self).stream_handles && removed@.len() == 0,
            !final(self).stream_handles.need_cleanup,
    {
        if self.stream_handles.need_cleanup() {
            self.stream_handles.cleanup()
        } else {
            Vec::new()
        }
    }
}

} // verus!
