//! What the display commands do to the resources and to what is shown.
use vstd::prelude::*;
use crate::bytes::patched;
use crate::platform::virtio::display::{DisplayBackend, PixelFormat, Rect};
use crate::platform::virtio::gpu::{backed, gpu_created, gpu_detached, gpu_moved, gpu_scanout_set, rows_backed, Gpu, Head, Res};
use crate::platform::virtio::ram::{bytes_at, holds, Mem};
use crate::table::{keyed, law_table_put, ordered, value};

verus! {

/// A new resource is black, has the size and format asked for and no memory of the
/// guest behind it, and counts against the memory of the host; the others stay.
/// An identifier that is zero or taken, an unknown format and too large a size are
/// refused, in this order, and change nothing.
pub proof fn law_resource_is_created<M>(
    g: Gpu<M>,
    id: u32,
    format: u32,
    width: u32,
    height: u32,
    other: u64,
)
    requires
        ordered(g.resources),
    ensures
        ({
            let (t, code) = gpu_created(g, id, format, width, height);
            let size = 4 * (width * height);
            let taken = id == 0 || keyed(g.resources, id as u64);
            let known = PixelFormat::of(format);
            let fits = size + g.hostmem < g.max_hostmem;
            let r = value(t.resources, id as u64);
            &&& taken ==> code == 0x1203
            &&& !taken && known is None ==> code == 0x1205
            &&& !taken && known is Some && !fits ==> code == 0x1201
            &&& taken || known is None || !fits ==> t == g
            &&& !taken && known is Some && fits ==> {
                &&& code == 0x1100
                &&& keyed(t.resources, id as u64)
                &&& r.width == width && r.height == height && r.format == known->0
                &&& r.backing is None && r.data.len() == size
                &&& forall|i: int| 0 <= i < size ==> #[trigger] r.data[i] == 0
                &&& t.hostmem == g.hostmem + size
                &&& t.heads == g.heads && t.display == g.display
                &&& other != id ==> keyed(t.resources, other) == keyed(g.resources, other)
                &&& other != id && keyed(g.resources, other) ==> value(t.resources, other) == value(
                    g.resources,
                    other,
                )
            }
        }),
{
    assert(width * 4 * height == 4 * (width * height)) by (nonlinear_arith);
    if let Some(f) = PixelFormat::of(format) {
        let size = (width * 4 * height) as nat;
        law_table_put(
            g.resources,
            id as u64,
            Res { width, height, format: f, data: crate::bytes::zeros(size), backing: None },
            other,
        );
    }
}

/// Detaching takes the guest's memory away from a resource that has it, and leaves
/// its pixels; of one that has none it is refused.
pub proof fn law_backing_is_detached<M>(g: Gpu<M>, id: u32)
    requires
        ordered(g.resources),
        keyed(g.resources, id as u64),
    ensures
        ({
            let (t, code) = gpu_detached(g, id);
            let r = value(g.resources, id as u64);
            &&& r.backing is None ==> t == g && code == 0x1200
            &&& r.backing is Some ==> code == 0x1100 && value(t.resources, id as u64) == (Res {
                backing: None,
                ..r
            }) && t.hostmem == g.hostmem && t.heads == g.heads && t.display == g.display
        }),
{
    law_table_put(
        g.resources,
        id as u64,
        Res { backing: None, ..value(g.resources, id as u64) },
        id as u64,
    );
}

/// A scanout shows the part of the resource that the guest chose, all of it at once,
/// from then on. Too small a part, or one that is not inside the resource, a resource
/// without the guest's memory, none, and a scanout that there is not, are refused.
pub proof fn law_scanout_shows_its_part<D: DisplayBackend>(
    g: Gpu<D::Model>,
    rect: Rect,
    s: u32,
    id: u32,
)
    requires
        id != 0,
    ensures
        ({
            let (t, code) = gpu_scanout_set::<D>(g, rect, s, id);
            let r = value(g.resources, id as u64);
            let there = keyed(g.resources, id as u64);
            let inside = rect.x + rect.width <= r.width && rect.y + rect.height <= r.height;
            &&& s >= g.heads.len() ==> t == g && code == 0x1202
            &&& s < g.heads.len() && !there ==> t == g && code == 0x1203
            &&& s < g.heads.len() && there && r.backing is None ==> t == g && code == 0x1200
            &&& s < g.heads.len() && there && r.backing is Some && (rect.width < 16 || rect.height
                < 16 || !inside) ==> t == g && code == 0x1205
            &&& s < g.heads.len() && there && r.backing is Some && rect.width >= 16 && rect.height
                >= 16 && inside && r.width <= 0x3FFF_FFFF ==> {
                let whole = Rect { x: 0, y: 0, width: rect.width, height: rect.height };
                &&& code == 0x1100
                &&& t.heads == g.heads.update(
                    s as int,
                    Head { resource_id: id, rect, ..g.heads[s as int] },
                )
                &&& t.display == D::updated(g.display, s, r.picture(rect), whole)
                &&& t.resources == g.resources && t.hostmem == g.hostmem
            }
        }),
{
}

/// Where the byte `b` of the row `h` of a rectangle stands in a resource.
pub open spec fn byte_at(rect: Rect, stride: int, h: int, b: int) -> int {
    (rect.y + h) * stride + rect.x * 4 + b
}

proof fn lemma_rows_apart(rect: Rect, stride: int, h: int, k: int, b: int, len: int)
    requires
        0 <= h < k,
        0 <= b < rect.width * 4,
        rect.x * 4 + rect.width * 4 <= stride,
        (rect.y + k + 1) * stride <= len,
    ensures
        0 <= byte_at(rect, stride, h, b) < byte_at(rect, stride, k, 0),
        byte_at(rect, stride, k, 0) + rect.width * 4 <= len,
{
    assert((rect.y + h + 1) * stride <= (rect.y + k) * stride) by (nonlinear_arith)
        requires
            0 <= h < k,
            0 <= stride,
    ;
    assert((rect.y + h + 1) * stride == (rect.y + h) * stride + stride) by (nonlinear_arith);
    assert((rect.y + k + 1) * stride == (rect.y + k) * stride + stride) by (nonlinear_arith);
    assert(0 <= (rect.y + h) * stride) by (nonlinear_arith)
        requires
            0 <= h,
            0 <= stride,
    ;
}

proof fn lemma_one_entry(m: Mem, e: (u64, u32), offset: int, data: Seq<u8>, at: int, end: int)
    requires
        0 <= at < end <= data.len(),
        0 <= offset,
        offset + (end - at) <= e.1,
        holds(m, e.0 as int, e.1 as nat),
    ensures
        backed(m, seq![e], offset, data, at, end) == patched(
            data,
            at,
            bytes_at(m, e.0 + offset, (end - at) as nat),
        ),
{
    reveal_with_fuel(backed, 2);
    assert(seq![e].skip(1) =~= Seq::<(u64, u32)>::empty());
    assert(holds(m, e.0 + offset, (end - at) as nat));
}

proof fn lemma_rows_moved(
    m: Mem,
    e: (u64, u32),
    offset: int,
    data: Seq<u8>,
    stride: int,
    rect: Rect,
    n: int,
)
    requires
        0 <= n <= rect.height,
        0 < rect.width,
        0 <= offset,
        rect.x * 4 + rect.width * 4 <= stride,
        (rect.y + n) * stride <= data.len(),
        n > 0 ==> offset + stride * (n - 1) + rect.width * 4 <= e.1,
        holds(m, e.0 as int, e.1 as nat),
    ensures
        ({
            let d = rows_backed(m, seq![e], offset, data, stride, rect, n);
            &&& d.len() == data.len()
            &&& forall|h: int, b: int|
                0 <= h < n && 0 <= b < rect.width * 4 ==> d[#[trigger] byte_at(rect, stride, h, b)]
                    == m[e.0 + offset + stride * h + b]
        }),
    decreases n,
{
    if n > 0 {
        let k = n - 1;
        assert((rect.y + k) * stride <= (rect.y + n) * stride) by (nonlinear_arith)
            requires
                k == n - 1,
                0 <= stride,
        ;
        assert((rect.y + k + 1) * stride == (rect.y + k) * stride + stride) by (nonlinear_arith);
        assert(stride * (k - 1) <= stride * k) by (nonlinear_arith)
            requires
                0 <= stride,
        ;
        assert(0 <= stride * k && 0 <= (rect.y + k) * stride) by (nonlinear_arith)
            requires
                0 <= stride,
                0 <= k,
        ;
        lemma_rows_moved(m, e, offset, data, stride, rect, k);
        let before = rows_backed(m, seq![e], offset, data, stride, rect, k);
        let at = byte_at(rect, stride, k, 0);
        lemma_one_entry(m, e, offset + stride * k, before, at, at + rect.width * 4);
        let d = rows_backed(m, seq![e], offset, data, stride, rect, n);
        assert forall|h: int, b: int| 0 <= h < n && 0 <= b < rect.width * 4 implies d[
        #[trigger] byte_at(rect, stride, h, b)] == m[e.0 + offset + stride * h + b] by {
            if h < k {
                lemma_rows_apart(rect, stride, h, k, b, data.len() as int);
                assert(d[byte_at(rect, stride, h, b)] == before[byte_at(rect, stride, h, b)]);
            } else {
                assert(byte_at(rect, stride, h, b) == at + b);
            }
        }
    }
}

/// A transfer of a part of a resource brings it from the guest's memory, row by row:
/// each byte of each row of the part comes from the place that its offset and the
/// rows of the resource give. The size of the resource stays.
pub proof fn law_transfer_brings_the_part<M>(
    g: Gpu<M>,
    m: Mem,
    rect: Rect,
    offset: u64,
    id: u32,
    e: (u64, u32),
)
    requires
        ordered(g.resources),
        keyed(g.resources, id as u64),
        value(g.resources, id as u64).backing == Some(seq![e]),
        value(g.resources, id as u64).wf(),
        rect.x + rect.width <= value(g.resources, id as u64).width,
        rect.y + rect.height <= value(g.resources, id as u64).height,
        0 < rect.width < value(g.resources, id as u64).width,
        0 < rect.height,
        offset + 4 * value(g.resources, id as u64).width * (rect.height - 1) + rect.width * 4
            <= e.1,
        holds(m, e.0 as int, e.1 as nat),
    ensures
        ({
            let (t, code) = gpu_moved(g, m, rect, offset, id);
            let was = value(g.resources, id as u64);
            let r = value(t.resources, id as u64);
            let stride = 4 * was.width;
            &&& code == 0x1100
            &&& r == (Res { data: r.data, ..was }) && r.data.len() == was.data.len()
            &&& forall|h: int, b: int|
                0 <= h < rect.height && 0 <= b < rect.width * 4 ==> r.data[#[trigger] byte_at(
                    rect,
                    stride,
                    h,
                    b,
                )] == m[e.0 + offset + stride * h + b]
            &&& t.heads == g.heads && t.display == g.display && t.hostmem == g.hostmem
        }),
{
    let was = value(g.resources, id as u64);
    let stride = 4 * was.width;
    assert(was.stride() == stride);
    assert((rect.y + rect.height) * stride <= stride * was.height) by (nonlinear_arith)
        requires
            rect.y + rect.height <= was.height,
            0 <= stride,
    ;
    lemma_rows_moved(m, e, offset as int, was.data, stride, rect, rect.height as int);
    let data = rows_backed(m, seq![e], offset as int, was.data, stride, rect, rect.height as int);
    law_table_put(g.resources, id as u64, Res { data, ..was }, id as u64);
}

} // verus!
