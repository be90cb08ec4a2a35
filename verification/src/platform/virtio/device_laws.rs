//! What holds of every network device, console and display.
use vstd::prelude::*;
use crate::bytes::{le32_at, le32_bytes, lemma_le32, min_len};
use crate::platform::virtio::console::{console_forwarded, console_received, console_sent, BufferConsole, Buffers, ConsoleBackend};
use crate::platform::virtio::display::{DisplayBackend, Rect};
use crate::platform::virtio::gpu::{answered, gpu_created, gpu_done, gpu_flushed, gpu_moved, gpu_unref, gpu_unshown, gpu_wf, Gpu, FLAG_FENCE, RESP_ERR_INVALID_PARAMETER, RESP_ERR_INVALID_RESOURCE_ID, RESP_ERR_UNSPEC, RESP_OK_NODATA};
use crate::platform::virtio::net::{net_collected, net_received, net_sent, net_taken, room_of, Frames, NetBackend, Nic, QueueNet};
use crate::platform::virtio::queue::{gathered, total, wadd16, Chain, QueueError, Virtqueue};
use crate::platform::virtio::queue_laws::law_rewind_undoes_pop;
use crate::platform::virtio::ram::Mem;
use crate::platform::virtio::SERVICE_LIMIT;
use crate::table::{keyed, law_table_without, value};

verus! {

// ---- Network --------------------------------------------------------------------

/// With the link down the frames of the guest are dropped, and the network is not
/// asked for any.
pub proof fn law_link_down_is_silent<N: NetBackend>(
    s: Nic<N::Model>,
    q: Virtqueue,
    m: Mem,
    fuel: nat,
)
    requires
        !s.link_up,
    ensures
        net_sent::<N>(s, q, m, fuel).0 == s,
        net_received::<N>(s, q, m) == (s, q, m, Ok::<(), QueueError>(())),
    decreases fuel,
{
    if fuel > 0 {
        let (q1, m1, next) = q.popped(m);
        if let Ok(Some(c)) = next {
            let (q3, m3, r3) = q1.returned(m1, c.head, 0);
            law_link_down_is_silent::<N>(s, q3, m3, (fuel - 1) as nat);
        }
    }
}

/// Frames that left stay in the order in which they left.
pub proof fn law_frames_keep_their_order(s: Nic<Frames>, q: Virtqueue, m: Mem, fuel: nat)
    ensures
        s.net.tx.is_prefix_of(net_sent::<QueueNet>(s, q, m, fuel).0.net.tx),
        net_sent::<QueueNet>(s, q, m, fuel).0.net.rx == s.net.rx,
    decreases fuel,
{
    if fuel > 0 {
        let (q1, m1, next) = q.popped(m);
        if let Ok(Some(c)) = next {
            if let Ok(frame) = c.contents(m1, 12) {
                let s2 = if s.link_up {
                    Nic { net: QueueNet::send_next(s.net, frame), ..s }
                } else {
                    s
                };
                let (q3, m3, r3) = q1.returned(m1, c.head, 0);
                law_frames_keep_their_order(s2, q3, m3, (fuel - 1) as nat);
            }
        }
    }
}

proof fn lemma_collected(q: Virtqueue, m: Mem, got: Seq<Chain>, need: int, mrg: bool, fuel: nat)
    ensures
        net_collected(q, m, got, need, mrg, fuel).2 matches Ok(chains) ==> {
            &&& got.len() <= chains.len() <= got.len() + fuel
            &&& net_collected(q, m, got, need, mrg, fuel).0 == (Virtqueue {
                last_avail: ((q.last_avail + (chains.len() - got.len())) % 0x1_0000) as u16,
                ..q
            })
        },
    decreases fuel,
{
    if fuel == 0 || room_of(got) >= need || (!mrg && got.len() > 0) {
    } else {
        let (q1, m1, next) = q.popped(m);
        if let Ok(Some(c)) = next {
            law_rewind_undoes_pop(q, m);
            assert(q1 == (Virtqueue { last_avail: wadd16(q.last_avail, 1), ..q })) by {
                reveal(Virtqueue::popped);
            }
            lemma_collected(q1, m1, got.push(c), need, mrg, (fuel - 1) as nat);
        } else {
            assert(next == Ok::<Option<Chain>, QueueError>(None) ==> q1 == q) by {
                reveal(Virtqueue::popped);
            }
        }
    }
}

/// A frame for which there is not enough room gives back the buffers that it
/// took. With merging it waits; without, it is dropped and counted if a buffer
/// was there.
pub proof fn law_frame_without_room_takes_no_buffer<M>(s: Nic<M>, q: Virtqueue, m: Mem, frame: Seq<u8>)
    ensures
        ({
            let got = net_collected(
                q,
                m,
                Seq::empty(),
                (12 + frame.len()) as int,
                s.mrg,
                SERVICE_LIMIT as nat,
            ).2;
            let (s2, q2, m2, taken) = net_taken(s, q, m, frame);
            got matches Ok(chains) ==> room_of(chains) < 12 + frame.len() ==> {
                &&& q2 == q
                &&& taken is Waits ==> s2 == (Nic { pending_rx: Some(frame), ..s }) && (s.mrg
                    || chains.len() == 0)
                &&& taken is Next ==> s2 == (Nic {
                    rx_dropped: s.rx_dropped.wrapping_add(1),
                    ..s
                }) && !s.mrg
            }
        }),
{
    lemma_collected(q, m, Seq::empty(), (12 + frame.len()) as int, s.mrg, SERVICE_LIMIT as nat);
}

// ---- Console --------------------------------------------------------------------

proof fn lemma_forwarded(b: Buffers, c: Chain, m: Mem, off: nat)
    ensures
        b.output.is_prefix_of(console_forwarded::<BufferConsole>(b, c, m, off).0.output),
        console_forwarded::<BufferConsole>(b, c, m, off).0.input == b.input,
    decreases total(c.readable) - off,
{
    let piece = min_len(total(c.readable), 65_536) as int;
    if let Ok(d) = gathered(m, c.readable, off as int, piece) {
        if d.len() == 0 || off + d.len() > total(c.readable) {
        } else {
            lemma_forwarded(BufferConsole::write_next(b, d), c, m, off + d.len());
        }
    }
}

/// What the guest has written stays in the order in which it was written.
pub proof fn law_output_keeps_its_order(b: Buffers, q: Virtqueue, m: Mem, fuel: nat)
    ensures
        b.output.is_prefix_of(console_sent::<BufferConsole>(b, q, m, fuel).0.output),
        console_sent::<BufferConsole>(b, q, m, fuel).0.input == b.input,
    decreases fuel,
{
    if fuel > 0 {
        let (q1, m1, next) = q.popped(m);
        if let Ok(Some(c)) = next {
            lemma_forwarded(b, c, m1, 0);
            let (b2, r) = console_forwarded::<BufferConsole>(b, c, m1, 0);
            let (q3, m3, r3) = q1.returned(m1, c.head, 0);
            law_output_keeps_its_order(b2, q3, m3, (fuel - 1) as nat);
        }
    }
}

/// Without a free buffer nothing is read from the host.
pub proof fn law_input_waits_for_a_buffer<C: ConsoleBackend>(
    b: C::Model,
    q: Virtqueue,
    m: Mem,
    fuel: nat,
)
    requires
        q.waiting(m) == Ok::<u16, QueueError>(0),
    ensures
        console_received::<C>(b, q, m, fuel) == (b, q, m, Ok::<(), QueueError>(())),
{
}

/// A host with nothing to say leaves the buffers of the guest in the queue.
pub proof fn law_silent_host_takes_no_buffer(b: Buffers, q: Virtqueue, m: Mem, fuel: nat)
    requires
        b.input.len() == 0,
    ensures
        console_received::<BufferConsole>(b, q, m, fuel).3 is Ok ==> console_received::<
            BufferConsole,
        >(b, q, m, fuel).1 == q,
        console_received::<BufferConsole>(b, q, m, fuel).0 == b,
{
    law_rewind_undoes_pop(q, m);
    assert(q.popped(m).2 == Ok::<Option<Chain>, QueueError>(None) ==> q.popped(m).0 == q) by {
        reveal(Virtqueue::popped);
    }
    if fuel > 0 {
        if let Ok(Some(c)) = q.popped(m).2 {
            let room = min_len(total(c.writable), 65_536);
            assert(BufferConsole::read_next(b, room) =~= b);
        }
    }
}

// ---- Display --------------------------------------------------------------------

/// A command that is answered with an error changes nothing.
pub proof fn law_failed_command_changes_nothing<D: DisplayBackend>(
    g: Gpu<D::Model>,
    c: Chain,
    m: Mem,
    cmd: Seq<u8>,
)
    requires
        gpu_done::<D>(g, c, m, cmd).1 >= RESP_ERR_UNSPEC,
    ensures
        gpu_done::<D>(g, c, m, cmd).0 == g,
{
    reveal(gpu_done);
}

/// The id 0 and one in use are refused for a new resource, and so is one that
/// does not fit in the memory of the host.
pub proof fn law_bad_resource_is_refused<M>(g: Gpu<M>, id: u32, format: u32, width: u32, height: u32)
    ensures
        id == 0 || keyed(g.resources, id as u64) ==> gpu_created(g, id, format, width, height) == (
            g,
            RESP_ERR_INVALID_RESOURCE_ID,
        ),
        gpu_created(g, id, format, width, height).1 == RESP_OK_NODATA ==> width * 4 * height
            + g.hostmem < g.max_hostmem,
{
}

/// A rectangle that is not inside its resource is refused.
pub proof fn law_rectangle_outside_is_refused<D: DisplayBackend>(
    g: Gpu<D::Model>,
    m: Mem,
    rect: Rect,
    offset: u64,
    id: u32,
)
    requires
        keyed(g.resources, id as u64),
        !rect.inside(value(g.resources, id as u64).width, value(g.resources, id as u64).height),
    ensures
        gpu_flushed::<D>(g, rect, id) == (g, RESP_ERR_INVALID_PARAMETER),
        gpu_moved(g, m, rect, offset, id).0 == g,
        gpu_moved(g, m, rect, offset, id).1 >= RESP_ERR_UNSPEC,
{
}

proof fn lemma_unshown<D: DisplayBackend>(g: Gpu<D::Model>, id: u32, n: nat)
    ensures
        gpu_unshown::<D>(g, id, n).resources == g.resources,
        gpu_unshown::<D>(g, id, n).hostmem == g.hostmem,
    decreases n,
{
    if n > 0 {
        lemma_unshown::<D>(g, id, (n - 1) as nat);
    }
}

/// A resource that is given up is gone, and its memory is free.
pub proof fn law_unref_frees_the_memory<D: DisplayBackend>(g: Gpu<D::Model>, id: u32)
    requires
        gpu_wf::<D>(g),
        keyed(g.resources, id as u64),
    ensures
        !keyed(gpu_unref::<D>(g, id).0.resources, id as u64),
        gpu_unref::<D>(g, id).0.hostmem == (g.hostmem - value(
            g.resources,
            id as u64,
        ).data.len()) as u64,
        gpu_unref::<D>(g, id).1 == RESP_OK_NODATA,
{
    lemma_unshown::<D>(g, id, g.heads.len());
    law_table_without(g.resources, id as u64, 0);
}

/// The answer to a command with a fence carries the flag, the fence and the
/// context of the command.
pub proof fn law_fence_is_reported(cmd: Seq<u8>, code: u32, body: Seq<u8>)
    requires
        cmd.len() >= 24,
        le32_at(cmd, 4) & FLAG_FENCE != 0,
    ensures
        le32_at(answered(cmd, code, body), 0) == code,
        le32_at(answered(cmd, code, body), 4) == FLAG_FENCE,
        answered(cmd, code, body).subrange(8, 20) == cmd.subrange(8, 20),
        answered(cmd, code, body).skip(24) == body,
{
    let hdr = cmd.take(24);
    let a = answered(cmd, code, body);
    assert(le32_at(hdr, 4) == le32_at(cmd, 4));
    lemma_le32(code);
    lemma_le32(FLAG_FENCE);
    assert(a[0] == le32_bytes(code)[0] && a[1] == le32_bytes(code)[1] && a[2] == le32_bytes(
        code,
    )[2] && a[3] == le32_bytes(code)[3]);
    assert(a[4] == le32_bytes(FLAG_FENCE)[0] && a[5] == le32_bytes(FLAG_FENCE)[1] && a[6]
        == le32_bytes(FLAG_FENCE)[2] && a[7] == le32_bytes(FLAG_FENCE)[3]);
    assert(a.subrange(8, 20) =~= cmd.subrange(8, 20));
    assert(a.skip(24) =~= body);
}

} // verus!
