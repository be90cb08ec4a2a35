//! What the DHCP server answers.
use vstd::prelude::*;
use crate::bytes::be32_bytes;
use crate::net::addr::Mac;
use crate::net::dhcp::{encodable, first_option, law_dhcp_answer_is_readable, law_dhcp_round_trip, message_in, Lease, Message};

verus! {

/// The kinds of messages: 1 DISCOVER, 2 OFFER, 3 REQUEST, 5 ACK, 6 NAK, 8 INFORM.
///
/// Every DISCOVER gets an OFFER of the lease's address. Every REQUEST that names
/// this server, or none, gets an answer: an ACK if the address that it wants is the
/// lease's (the one in its option or, when it renews and has none, the one it has
/// already), a NAK otherwise. Every INFORM gets an ACK that assigns nothing. A
/// REQUEST that chooses another server, any other kind and everything that is no
/// request get none.
pub proof fn law_every_request_is_answered(m: Message, lease: Lease)
    ensures
        m.op == 1 && m.message_type == Some(1u8) ==> (m.answer(lease) matches Some(a)
            && a.message_type == 2 && a.yiaddr == lease.client),
        m.op == 1 && m.message_type == Some(3u8) && (m.server_id is None || m.server_id == Some(
            lease.server,
        )) ==> {
            let wants = if m.requested_ip is Some { m.requested_ip->0 } else { m.ciaddr };
            m.answer(lease) matches Some(a) && if wants == lease.client {
                a.message_type == 5 && a.yiaddr == lease.client
            } else {
                a.message_type == 6 && a.yiaddr.bits == 0
            }
        },
        m.op == 1 && m.message_type == Some(8u8) ==> (m.answer(lease) matches Some(a)
            && a.message_type == 5 && a.yiaddr.bits == 0),
        m.message_type == Some(3u8) && (m.server_id matches Some(s) && s != lease.server) ==> m.answer(
            lease,
        ) is None,
        m.op != 1 ==> m.answer(lease) is None,
        m.message_type is None ==> m.answer(lease) is None,
        (m.message_type matches Some(t) && t != 1 && t != 3 && t != 8) ==> m.answer(lease) is None,
{
}

/// A client that has the lease renews it, whether it sends an option with the
/// address or only has it in `ciaddr`: the same message with the address in either
/// place, or both, gets the same answer.
pub proof fn law_renewal_is_acknowledged(m: Message, lease: Lease)
    requires
        m.op == 1,
        m.message_type == Some(3u8),
        m.server_id is None || m.server_id == Some(lease.server),
        m.ciaddr == lease.client,
    ensures
        ({
            let bare = Message { requested_ip: None, ..m };
            let named = Message { requested_ip: Some(lease.client), ..m };
            &&& bare.answer(lease) == named.answer(lease)
            &&& bare.answer(lease) matches Some(a) && a.message_type == 5 && a.yiaddr == lease.client
                && (lease.client.bits != 0 ==> a.dst_ip == lease.client && a.dst_mac == m.chaddr)
        }),
{
}

/// Where an answer goes: to a client that has an address, at that address, unless
/// it is refused; to any other by broadcast, on the cable to its own MAC unless it
/// asked for a broadcast there too. A refusal is always broadcast.
pub proof fn law_answer_reaches_the_client(m: Message, lease: Lease)
    ensures
        m.answer(lease) matches Some(a) ==> {
            &&& a.message_type != 6 && m.ciaddr.bits != 0 ==> a.dst_ip == m.ciaddr && a.dst_mac
                == m.chaddr
            &&& a.message_type == 6 || m.ciaddr.bits == 0 ==> a.dst_ip.bits == 0xFFFF_FFFF
            &&& a.message_type == 6 || (m.ciaddr.bits == 0 && m.flags & 0x8000 != 0) ==> a.dst_mac
                == Mac::all(0xFF)
            &&& a.message_type != 6 && m.ciaddr.bits == 0 && m.flags & 0x8000 == 0 ==> a.dst_mac
                == m.chaddr
        },
{
}

proof fn lemma_first(o: Seq<(u8, Seq<u8>)>, code: u8, k: int)
    requires
        0 <= k < o.len(),
        o[k].0 == code,
        forall|j: int| 0 <= j < k ==> (#[trigger] o[j]).0 != code,
    ensures
        first_option(o, code) == Some(o[k].1),
    decreases k,
{
    if k > 0 {
        assert(o[0].0 != code);
        assert forall|j: int| 0 <= j < k - 1 implies (#[trigger] o.skip(1)[j]).0 != code by {
            assert(o.skip(1)[j] == o[j + 1]);
        }
        lemma_first(o.skip(1), code, k - 1);
    }
}

proof fn lemma_none(o: Seq<(u8, Seq<u8>)>, code: u8)
    requires
        forall|j: int| 0 <= j < o.len() ==> (#[trigger] o[j]).0 != code,
    ensures
        first_option(o, code) is None,
    decreases o.len(),
{
    if o.len() > 0 {
        assert(o[0].0 != code);
        assert forall|j: int| 0 <= j < o.len() - 1 implies (#[trigger] o.skip(1)[j]).0 != code by {
            assert(o.skip(1)[j] == o[j + 1]);
        }
        lemma_none(o.skip(1), code);
    }
}

/// What an answer says, read back from its bytes: the client's own number,
/// addresses and flags, the server, the kind, and, unless it refuses, the mask, the
/// router and the name server of the lease; the times of the lease if it assigns
/// an address. The renewal comes at half the time, the rebinding at seven eighths.
pub proof fn law_answer_carries_the_lease(m: Message, lease: Lease)
    ensures
        m.answer(lease) matches Some(a) ==> (message_in(a.packet) matches Some(r) && {
            let granted = a.message_type != 6;
            let timed = granted && m.message_type != Some(8u8);
            &&& r.op == 2 && r.xid == m.xid && r.flags == m.flags && r.ciaddr == m.ciaddr
            &&& r.chaddr == m.chaddr && r.yiaddr == a.yiaddr
            &&& r.message_type == Some(a.message_type) && r.server_id == Some(lease.server)
            &&& first_option(r.options, 1) == if granted {
                Some(be32_bytes(lease.netmask.bits))
            } else {
                None
            }
            &&& first_option(r.options, 3) == if granted {
                Some(be32_bytes(lease.router.bits))
            } else {
                None
            }
            &&& first_option(r.options, 6) == if granted {
                Some(be32_bytes(lease.dns.bits))
            } else {
                None
            }
            &&& first_option(r.options, 51) == if timed {
                Some(be32_bytes(lease.lease_secs))
            } else {
                None
            }
            &&& first_option(r.options, 58) == if timed {
                Some(be32_bytes((lease.lease_secs / 2) as u32))
            } else {
                None
            }
            &&& first_option(r.options, 59) == if timed {
                Some(be32_bytes((lease.lease_secs / 8 * 7) as u32))
            } else {
                None
            }
        }),
{
    if let Some(a) = m.answer(lease) {
        law_dhcp_answer_is_readable(m, lease);
        let o = lease.offered(a.message_type, m.message_type == Some(8u8));
        assert(encodable(o));
        law_dhcp_round_trip(2, m.xid, m.flags, m.ciaddr, a.yiaddr, m.chaddr, o);
        let granted = a.message_type != 6;
        let timed = granted && m.message_type != Some(8u8);
        if timed {
            lemma_first(o, 51, 2);
            lemma_first(o, 58, 3);
            lemma_first(o, 59, 4);
            lemma_first(o, 1, 5);
            lemma_first(o, 3, 6);
            lemma_first(o, 6, 7);
        } else {
            lemma_none(o, 51);
            lemma_none(o, 58);
            lemma_none(o, 59);
            if granted {
                lemma_first(o, 1, 2);
                lemma_first(o, 3, 3);
                lemma_first(o, 6, 4);
            } else {
                lemma_none(o, 1);
                lemma_none(o, 3);
                lemma_none(o, 6);
            }
        }
    }
}

} // verus!
