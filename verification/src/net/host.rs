//! The host's connections to services of the guest: what the host does with
//! them. Its actions take effect at the next poll.
use vstd::prelude::*;
use crate::bytes::{drain_into, min_len, patched, queue_bytes};
use crate::net::addr::{ConnId, Flow, SocketAddrV4};
use crate::net::gateway::{awaited, first_port, Net};
use crate::net::hostfwd::{End, Ends, HostConnInfo, HostConnState, HostEnd, FIRST_EPHEMERAL_PORT};
use crate::net::stack::Stack;
use crate::net::tcp::State;
use crate::net::upstream::Upstream;
use crate::table::{keyed, rank, value};

verus! {

impl<U: Upstream> Stack<U> {
    /// A host connection waits for its SYN with this flow.
    fn is_awaited(&self, flow: Flow) -> (r: bool)
        ensures
            r == awaited(self@.host.conns, flow),
    {
        let mut i: usize = 0;
        while i < self.host.conns.entries.len()
            invariant
                i <= self.host.conns.entries@.len(),
                forall|k: int|
                    0 <= k < i ==> !((#[trigger] self@.host.conns[k]).1.pending_open
                        && self@.host.conns[k].1.flow == flow),
            decreases self.host.conns.entries@.len() - i,
        {
            assert(self@.host.conns[i as int].1 == self.host.conns.entries@[i as int].1@);
            if self.host.conns.entries[i].1.pending_open && self.host.conns.entries[i].1.flow
                == flow {
                return true;
            }
            i += 1;
        }
        false
    }

    /// A free ephemeral port for a connection to `port`.
    fn pick_port(&self, port: u16) -> (r: Option<u16>)
        ensures
            r == self@.free_port(port, first_port(self@.host.next_port), 16_384),
    {
        let mut p: u16 = if self.host.next_port >= FIRST_EPHEMERAL_PORT {
            self.host.next_port
        } else {
            FIRST_EPHEMERAL_PORT
        };
        let mut left: u16 = 16_384;
        while left > 0
            invariant
                self@.free_port(port, p, left as nat) == self@.free_port(
                    port,
                    first_port(self@.host.next_port),
                    16_384,
                ),
            decreases left,
        {
            let flow = Flow {
                guest: SocketAddrV4::new(self.config.guest_ip, port),
                remote: SocketAddrV4::new(self.config.gateway_ip, p),
            };
            if self.tcp_index.get(flow).is_none() && !self.is_awaited(flow) {
                return Some(p);
            }
            p = if p == 65_535 { FIRST_EPHEMERAL_PORT } else { p + 1 };
            left -= 1;
        }
        None
    }

    /// Opens a connection to a TCP port of the guest, from the gateway and the
    /// next free ephemeral port. The SYN leaves at the next poll. `None` if no
    /// port is free.
    pub fn host_connect(&mut self, port: u16) -> (r: Option<ConnId>)
        requires
            old(self).wf(),
            old(self).next_id < u64::MAX,
        ensures
            (final(self)@, r) == old(self)@.host_connected(port),
            final(self).wf(),
    {
        match self.pick_port(port) {
            None => None,
            Some(p) => {
                let id: ConnId = self.next_id;
                self.next_id = self.next_id + 1;
                let flow = Flow {
                    guest: SocketAddrV4::new(self.config.guest_ip, port),
                    remote: SocketAddrV4::new(self.config.gateway_ip, p),
                };
                self.host.conns.insert(id, HostEnd::new(flow));
                self.host.next_port = if p == 65_535 { FIRST_EPHEMERAL_PORT } else { p + 1 };
                assert(self@.tcp == old(self)@.tcp);
                Some(id)
            },
        }
    }

    /// How a host connection stands.
    pub fn host_conn(&self, id: ConnId) -> (r: Option<HostConnInfo>)
        ensures
            match r {
                Some(info) => {
                    let e = value(self@.host.conns, id);
                    &&& keyed(self@.host.conns, id)
                    &&& info.state == self@.host_state(id)
                    &&& info.flow == e.flow
                    &&& info.readable == e.from_guest.len()
                    &&& info.writable == e.writable()
                    &&& info.guest_eof == (e.guest_fin && e.from_guest.len() == 0)
                    &&& info.unsent == e.to_guest.len()
                },
                None => !keyed(self@.host.conns, id),
            },
    {
        match self.host.conns.get(id) {
            None => None,
            Some(e) => {
                let state = match e.closed {
                    Some(reason) => HostConnState::Closed(reason),
                    None => {
                        let syn_sent: bool = match self.tcp.get(id) {
                            Some(c) => c.t.state == State::SynSent,
                            None => false,
                        };
                        if e.pending_open || syn_sent {
                            HostConnState::Connecting
                        } else {
                            HostConnState::Open
                        }
                    },
                };
                Some(
                    HostConnInfo {
                        state,
                        flow: e.flow,
                        readable: e.from_guest.len(),
                        writable: e.room(),
                        guest_eof: e.guest_fin && e.from_guest.len() == 0,
                        unsent: e.to_guest.len(),
                    },
                )
            },
        }
    }

    /// Queues bytes for the guest; returns how many were accepted (none if the
    /// direction is closed, fewer if the queue is full).
    pub fn host_send(&mut self, id: ConnId, data: &[u8]) -> (n: usize)
        ensures
            keyed(old(self)@.host.conns, id) ==> {
                let e = value(old(self)@.host.conns, id);
                &&& n == min_len(data@.len(), e.writable())
                &&& final(self)@ == old(self)@.with_end(
                    id,
                    End { to_guest: e.to_guest + data@.take(n as int), ..e },
                )
            },
            !keyed(old(self)@.host.conns, id) ==> n == 0 && final(self)@ == old(self)@,
            old(self).wf() ==> final(self).wf(),
    {
        match self.host.conns.find(id) {
            None => 0,
            Some(i) => {
                let e: &mut HostEnd = self.host.conns.slot(i);
                let room: usize = e.room();
                let n: usize = if data.len() <= room { data.len() } else { room };
                let part: &[u8] = vstd::slice::slice_subrange(data, 0, n);
                assert(part@ =~= data@.take(n as int));
                queue_bytes(&mut e.to_guest, part);
                n
            },
        }
    }

    /// Reads bytes of the guest; returns how many were copied into `buf`.
    pub fn host_recv(&mut self, id: ConnId, buf: &mut [u8]) -> (n: usize)
        ensures
            keyed(old(self)@.host.conns, id) ==> {
                let e = value(old(self)@.host.conns, id);
                &&& n == min_len(e.from_guest.len(), old(buf)@.len())
                &&& final(buf)@ == patched(old(buf)@, 0, e.from_guest.take(n as int))
                &&& final(self)@ == old(self)@.with_end(
                    id,
                    End { from_guest: e.from_guest.skip(n as int), ..e },
                )
            },
            !keyed(old(self)@.host.conns, id) ==> n == 0 && final(self)@ == old(self)@
                && final(buf)@ == old(buf)@,
            old(self).wf() ==> final(self).wf(),
    {
        match self.host.conns.find(id) {
            None => 0,
            Some(i) => {
                let e: &mut HostEnd = self.host.conns.slot(i);
                drain_into(&mut e.from_guest, buf)
            },
        }
    }

    /// Closes the host's direction: FIN after the queued bytes.
    pub fn host_shutdown(&mut self, id: ConnId)
        ensures
            final(self)@ == (if keyed(old(self)@.host.conns, id) {
                old(self)@.with_end(
                    id,
                    End { shutdown: true, ..value(old(self)@.host.conns, id) },
                )
            } else {
                old(self)@
            }),
            old(self).wf() ==> final(self).wf(),
    {
        match self.host.conns.find(id) {
            None => {},
            Some(i) => {
                let e: &mut HostEnd = self.host.conns.slot(i);
                e.shutdown = true;
            },
        }
    }

    /// Breaks the connection: RST at the next poll.
    pub fn host_abort(&mut self, id: ConnId)
        ensures
            final(self)@ == (if keyed(old(self)@.host.conns, id) {
                old(self)@.with_end(id, End { abort: true, ..value(old(self)@.host.conns, id) })
            } else {
                old(self)@
            }),
            old(self).wf() ==> final(self).wf(),
    {
        match self.host.conns.find(id) {
            None => {},
            Some(i) => {
                let e: &mut HostEnd = self.host.conns.slot(i);
                e.abort = true;
            },
        }
    }

    /// The host has no more use for the connection: if it is over it disappears
    /// at once, else it is broken at the next poll and disappears then.
    pub fn host_release(&mut self, id: ConnId)
        ensures
            final(self)@ == (if !keyed(old(self)@.host.conns, id) {
                old(self)@
            } else if value(old(self)@.host.conns, id).closed is Some {
                Net {
                    host: Ends {
                        conns: old(self)@.host.conns.remove(rank(old(self)@.host.conns, id)),
                        ..old(self)@.host
                    },
                    ..old(self)@
                }
            } else {
                old(self)@.with_end(
                    id,
                    End { abort: true, released: true, ..value(old(self)@.host.conns, id) },
                )
            }),
            old(self).wf() ==> final(self).wf(),
    {
        match self.host.conns.find(id) {
            None => {},
            Some(i) => {
                if self.host.conns.entries[i].1.closed.is_some() {
                    let _ = self.host.conns.remove(id);
                } else {
                    let e: &mut HostEnd = self.host.conns.slot(i);
                    e.abort = true;
                    e.released = true;
                }
            },
        }
    }
}

} // verus!
