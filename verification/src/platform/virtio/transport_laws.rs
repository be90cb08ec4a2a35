//! What holds of every device behind the transport.
use vstd::prelude::*;
use crate::platform::bus::spec_size_mask;
use crate::platform::virtio::mmio::{is_address, noticed, Transport};
use crate::platform::virtio::queue::{QueueError, Virtqueue};
use crate::platform::virtio::ram::Mem;
use crate::platform::virtio::{VirtioDevice, Work, CONFIG, DEVICE_FEATURES_SEL, DRIVER_FEATURES, DRIVER_FEATURES_SEL, F_VERSION_1, INTERRUPT_ACK, INT_CONFIG, INT_VRING, QUEUE_NOTIFY, QUEUE_NUM, QUEUE_SEL, SHM_SEL, STATUS, STATUS_DEVICE_NEEDS_RESET, STATUS_DRIVER_OK, STATUS_FEATURES_OK};

verus! {

/// Below the configuration space only aligned accesses of 32 bits count: the
/// others read 0 and write nothing.
pub proof fn law_odd_accesses_do_nothing<V: VirtioDevice>(
    pre: Transport<V>,
    offset: u64,
    size: u8,
    value: u64,
    post: Transport<V>,
)
    requires
        offset < CONFIG,
        size != 4 || offset % 4 != 0,
    ensures
        pre.value(offset, size) == 0,
        Transport::written(pre, offset, size, value, post) ==> post == pre,
{
}

/// A register that can only be written.
pub open spec fn write_only(offset: u64) -> bool {
    offset == DEVICE_FEATURES_SEL || offset == DRIVER_FEATURES || offset == DRIVER_FEATURES_SEL
        || offset == QUEUE_SEL || offset == QUEUE_NUM || offset == QUEUE_NOTIFY || offset
        == INTERRUPT_ACK || offset == SHM_SEL || is_address(offset)
}

/// A register that can only be written reads 0.
pub proof fn law_write_only_registers_read_zero<V: VirtioDevice>(t: Transport<V>, offset: u64)
    requires
        write_only(offset),
        t.device is Some,
    ensures
        t.value(offset, 4) == 0,
{
}

proof fn lemma_status_bits(s: u32)
    ensures
        (s & !STATUS_FEATURES_OK) & STATUS_FEATURES_OK == 0,
        (s | STATUS_DEVICE_NEEDS_RESET) & STATUS_DEVICE_NEEDS_RESET != 0,
        (s | STATUS_DEVICE_NEEDS_RESET) & STATUS_DRIVER_OK == s & STATUS_DRIVER_OK,
        (s | INT_CONFIG) & INT_CONFIG != 0,
        0u32 & STATUS_FEATURES_OK == 0,
        0u32 & STATUS_DEVICE_NEEDS_RESET == 0,
{
    assert((s & !8u32) & 8u32 == 0) by (bit_vector);
    assert((s | 64u32) & 64u32 != 0) by (bit_vector);
    assert((s | 64u32) & 4u32 == s & 4u32) by (bit_vector);
    assert((s | 2u32) & 2u32 != 0) by (bit_vector);
    assert(0u32 & 8u32 == 0 && 0u32 & 64u32 == 0) by (bit_vector);
}

/// FEATURES_OK stays set only if the driver has accepted VERSION_1 and nothing
/// that was not offered, and the device agrees.
pub proof fn law_features_ok_is_earned<V: VirtioDevice>(
    pre: Transport<V>,
    v: u32,
    post: Transport<V>,
)
    requires
        Transport::status_set(pre, v, post),
        !pre.features_locked(),
        post.features_locked(),
    ensures
        pre.driver_features & F_VERSION_1 != 0,
        pre.driver_features & !pre.offered() == 0,
        pre.device is Some && post.device is Some,
        V::agreed(pre.device->0, pre.driver_features, post.device->0, true),
{
    let kept = v | (pre.status & STATUS_DEVICE_NEEDS_RESET);
    lemma_status_bits(kept);
    if v != 0 && pre.acceptable() && pre.device is Some && kept & STATUS_FEATURES_OK != 0 {
        let (d, ok) = choose|d: V, ok: bool|
            #![trigger V::agreed(pre.device->0, pre.driver_features, d, ok)]
            V::agreed(pre.device->0, pre.driver_features, d, ok) && post == (Transport {
                device: Some(d),
                status: if ok {
                    kept
                } else {
                    kept & !STATUS_FEATURES_OK
                },
                ..pre
            });
        assert(ok);
    }
}

/// Once FEATURES_OK is set the features do not change until the next reset.
pub proof fn law_features_are_frozen<V: VirtioDevice>(
    pre: Transport<V>,
    offset: u64,
    size: u8,
    value: u64,
    post: Transport<V>,
)
    requires
        pre.features_locked(),
        Transport::written(pre, offset, size, value, post),
    ensures
        post.driver_features == pre.driver_features || Transport::was_reset(pre, post),
{
}

/// The areas and the size of a queue that is ready do not change while it stays
/// ready.
pub proof fn law_ready_queue_is_frozen<V: VirtioDevice>(
    pre: Transport<V>,
    offset: u64,
    size: u8,
    value: u64,
    post: Transport<V>,
    i: int,
)
    requires
        Transport::written(pre, offset, size, value, post),
        0 <= i < pre.queues.len(),
        pre.queues[i].ready,
    ensures
        post.queues.len() == pre.queues.len(),
        post.queues[i].ready ==> {
            &&& post.queues[i].size == pre.queues[i].size
            &&& post.queues[i].desc == pre.queues[i].desc
            &&& post.queues[i].driver == pre.queues[i].driver
            &&& post.queues[i].device == pre.queues[i].device
        },
{
}

proof fn lemma_error_stays(qs: Seq<Virtqueue>, m: Mem, e: QueueError, i: nat)
    ensures
        noticed(qs, m, Err(e), i).2 == Err::<(), QueueError>(e),
    decreases i,
{
    if i > 0 {
        lemma_error_stays(qs, m, e, (i - 1) as nat);
    }
}

/// An error in a queue brings the device to DEVICE_NEEDS_RESET, with the
/// interrupt of the configuration.
pub proof fn law_queue_error_breaks_the_device<V: VirtioDevice>(
    t: Transport<V>,
    d: V,
    after: Work,
    e: QueueError,
)
    requires
        t.driven(),
    ensures
        ({
            let post = t.settled(d, after, Err(e));
            &&& post.broken()
            &&& post.last_error == Some(e)
            &&& post.interrupt_status & INT_CONFIG != 0
        }),
{
    lemma_error_stays(after.queues, after.mem, e, after.queues.len());
    lemma_status_bits(t.status);
    let post = t.settled(d, after, Err(e));
    let t1 = Transport { device: Some(d), queues: after.queues, ..t };
    let t2 = if after.config_changed {
        t1.signalled()
    } else {
        t1
    };
    let (queues, notify, r) = noticed(after.queues, after.mem, Err(e), after.queues.len());
    let t3 = Transport {
        queues,
        interrupt_status: if notify {
            t2.interrupt_status | INT_VRING
        } else {
            t2.interrupt_status
        },
        ..t2
    };
    lemma_status_bits(t3.interrupt_status);
    assert(post == t3.failed(e));
}

/// A device that needs a reset does not work until it gets one: a service leaves
/// it and the memory as they are.
pub proof fn law_broken_device_rests<V: VirtioDevice>(
    pre: Transport<V>,
    m: Mem,
    post: Transport<V>,
    m2: Mem,
)
    requires
        pre.broken() || !pre.driven(),
        Transport::worked(pre, m, post, m2),
    ensures
        post == pre,
        m2 == m,
{
}

/// Writes other than a reset leave DEVICE_NEEDS_RESET set.
pub proof fn law_only_a_reset_mends<V: VirtioDevice>(
    pre: Transport<V>,
    offset: u64,
    size: u8,
    value: u64,
    post: Transport<V>,
)
    requires
        pre.broken(),
        Transport::written(pre, offset, size, value, post),
    ensures
        post.broken() || Transport::was_reset(pre, post),
{
    let v = value as u32;
    let s = pre.status;
    assert(s & 64u32 != 0 ==> (v | (s & 64u32)) & 64u32 != 0 && ((v | (s & 64u32)) & !8u32) & 64u32
        != 0) by (bit_vector);
}

/// A reset leaves no status, no interrupt, no error, no accepted feature and no
/// queue ready.
pub proof fn law_reset_starts_over<V: VirtioDevice>(pre: Transport<V>, post: Transport<V>)
    requires
        Transport::written(pre, STATUS, 4, 0, post),
        pre.device is Some,
    ensures
        post.status == 0,
        post.interrupt_status == 0,
        post.driver_features == 0,
        post.last_error is None,
        post.device is Some && V::cleared(pre.device->0, post.device->0),
        forall|i: int| 0 <= i < post.queues.len() ==> !(#[trigger] post.queues[i]).ready,
{
}

/// An interrupt that is acknowledged falls.
pub proof fn law_acknowledged_interrupt_falls<V: VirtioDevice>(
    pre: Transport<V>,
    v: u32,
    post: Transport<V>,
)
    requires
        pre.device is Some,
        Transport::written(pre, INTERRUPT_ACK, 4, v as u64, post),
    ensures
        post.interrupt_status & v == 0,
        pre.interrupt_status & !v == 0 ==> post.interrupt_status == 0,
{
    let s = pre.interrupt_status;
    assert((s & !v) & v == 0) by (bit_vector);
}

/// A slot without a device shows that it is one, and takes no writes.
pub proof fn law_empty_slot_is_inert<V: VirtioDevice>(
    pre: Transport<V>,
    offset: u64,
    size: u8,
    value: u64,
    post: Transport<V>,
)
    requires
        pre.device is None,
    ensures
        offset >= 8 ==> pre.value(offset, size) == 0,
        Transport::written(pre, offset, size, value, post) ==> post == pre,
{
    let mask = spec_size_mask(size);
    assert(forall|sh: u64| (0u64 >> sh) & mask == 0) by (bit_vector);
}

} // verus!
