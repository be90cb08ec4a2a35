//! virtio-gpu 2D, without virgl and blobs.
//!
//! Queues: 0 = control (readable command, writable answer), 1 = cursor (commands
//! without an answer). Feature offered: EDID (can be switched off). The 2D
//! resources stand in the host's memory; the guest copies pixels into them from
//! its backing memory with TRANSFER_TO_HOST_2D and shows them with SET_SCANOUT
//! and RESOURCE_FLUSH. The result goes to the [`DisplayBackend`].
//!
//! - Resource id 0 or already used: ERR_INVALID_RESOURCE_ID; unknown format:
//!   ERR_INVALID_PARAMETER; `max_hostmem` reached: ERR_OUT_OF_MEMORY.
//! - Rectangles of TRANSFER and FLUSH outside the resource, of SET_SCANOUT
//!   outside or smaller than 16 by 16, or of a resource whose rows are longer
//!   than 32 bits can say: ERR_INVALID_PARAMETER; no such scanout:
//!   ERR_INVALID_SCANOUT_ID.
//! - TRANSFER, SET_SCANOUT and DETACH without backing, ATTACH on a resource that
//!   already has it, more than 16384 entries or entries outside the RAM:
//!   ERR_UNSPEC.
//! - GET_CAPSET*, 3D commands and UUIDs: ERR_UNSPEC; blobs: ERR_INVALID_PARAMETER.
//! - With FLAG_FENCE the answer carries the flag, fence_id and ctx_id.
//! - A command shorter than its structure: ERR_INVALID_PARAMETER. An answer that
//!   does not fit in the writable buffers is cut.
use vstd::prelude::*;
use crate::bytes::{copy_into, le32, le32_at, le32_bytes, le64, le64_at, min_len, patched, push_bytes, push_le32, push_zeros, to_vec, zeroed, zeros};
use crate::platform::bus::Holds;
use crate::platform::virtio::display::{Cursor, Picture, Pointer};
use crate::platform::virtio::edid::{generate_for, EdidInfo, Monitor};
use crate::platform::virtio::queue::{gathered, scattered, Chain, DescChain, QueueError, Virtqueue};
use crate::platform::virtio::ram::{bytes_at, holds, ram_holds, ram_read, GuestRam, Mem};
use crate::platform::virtio::{read_config_bytes, ServiceCtx, VirtioDevice, Work, ID_GPU, SERVICE_LIMIT};
use crate::table::{keyed, law_table_put, law_table_without, lemma_rank, ordered, put, rank, value, without, Table};

pub use crate::platform::virtio::display::{DisplayBackend, Frame, MemDisplay, PixelFormat, Rect};

verus! {

pub const F_VIRGL: u64 = 0x1;
pub const F_EDID: u64 = 0x2;

// Commands.
pub const CMD_GET_DISPLAY_INFO: u32 = 0x0100;
pub const CMD_RESOURCE_CREATE_2D: u32 = 0x0101;
pub const CMD_RESOURCE_UNREF: u32 = 0x0102;
pub const CMD_SET_SCANOUT: u32 = 0x0103;
pub const CMD_RESOURCE_FLUSH: u32 = 0x0104;
pub const CMD_TRANSFER_TO_HOST_2D: u32 = 0x0105;
pub const CMD_RESOURCE_ATTACH_BACKING: u32 = 0x0106;
pub const CMD_RESOURCE_DETACH_BACKING: u32 = 0x0107;
pub const CMD_GET_CAPSET_INFO: u32 = 0x0108;
pub const CMD_GET_CAPSET: u32 = 0x0109;
pub const CMD_GET_EDID: u32 = 0x010a;
pub const CMD_RESOURCE_ASSIGN_UUID: u32 = 0x010b;
pub const CMD_RESOURCE_CREATE_BLOB: u32 = 0x010c;
pub const CMD_SET_SCANOUT_BLOB: u32 = 0x010d;
pub const CMD_UPDATE_CURSOR: u32 = 0x0300;
pub const CMD_MOVE_CURSOR: u32 = 0x0301;

// Answers.
pub const RESP_OK_NODATA: u32 = 0x1100;
pub const RESP_OK_DISPLAY_INFO: u32 = 0x1101;
pub const RESP_OK_EDID: u32 = 0x1104;
pub const RESP_ERR_UNSPEC: u32 = 0x1200;
pub const RESP_ERR_OUT_OF_MEMORY: u32 = 0x1201;
pub const RESP_ERR_INVALID_SCANOUT_ID: u32 = 0x1202;
pub const RESP_ERR_INVALID_RESOURCE_ID: u32 = 0x1203;
pub const RESP_ERR_INVALID_CONTEXT_ID: u32 = 0x1204;
pub const RESP_ERR_INVALID_PARAMETER: u32 = 0x1205;

pub const FLAG_FENCE: u32 = 1;
/// Bit of `events_read`: the configuration of the displays has changed.
pub const EVENT_DISPLAY: u32 = 1;

/// Most scanouts.
pub const MAX_SCANOUTS: u32 = 16;
/// Most entries of ATTACH_BACKING.
pub const MAX_BACKING_ENTRIES: u32 = 16384;
/// Side of the cursor.
pub const CURSOR_SIZE: u32 = 64;
/// Longest row, in pixels, of a resource that can be shown: a [`Frame`] has its
/// length in bytes in 32 bits.
pub const MAX_SHOWN_WIDTH: u32 = 0x3FFF_FFFF;

pub const HDR_LEN: usize = 24;

/// Configuration of the device.
#[derive(Clone, Debug, PartialEq, Eq)]
pub struct GpuConfig {
    /// Number of scanouts (1 to 16).
    pub scanouts: u32,
    /// Initial resolution of scanout 0.
    pub width: u32,
    pub height: u32,
    /// Offers EDID.
    pub edid: bool,
    /// Monitor described by the EDID (its preferred size is the resolution of the
    /// scanout).
    pub monitor: EdidInfo,
    /// Limit of the memory of the resources, which stays below it.
    pub max_hostmem: u64,
}

impl Default for GpuConfig {
    fn default() -> (r: Self)
        ensures
            r.scanouts == 1,
            r.width == 1280,
            r.height == 800,
            r.edid,
            r.max_hostmem == 0x1000_0000,
            r.monitor@.prefx == 1280,
            r.monitor@.prefy == 800,
            r.monitor@.serial is None,
    {
        GpuConfig {
            scanouts: 1,
            width: 1280,
            height: 800,
            edid: true,
            monitor: EdidInfo::default(),
            max_hostmem: 0x1000_0000,
        }
    }
}

pub struct Resource {
    pub width: u32,
    pub height: u32,
    pub format: PixelFormat,
    /// Pixels, rows of `width * 4` bytes.
    pub data: Vec<u8>,
    /// Memory of the guest: (address, length).
    pub backing: Option<Vec<(u64, u32)>>,
}

/// What a [`Resource`] holds.
#[verifier::ext_equal]
pub struct Res {
    pub width: u32,
    pub height: u32,
    pub format: PixelFormat,
    pub data: Seq<u8>,
    pub backing: Option<Seq<(u64, u32)>>,
}

impl View for Resource {
    type V = Res;

    open spec fn view(&self) -> Res {
        Res {
            width: self.width,
            height: self.height,
            format: self.format,
            data: self.data@,
            backing: match self.backing {
                Some(b) => Some(b@),
                None => None,
            },
        }
    }
}

impl Res {
    pub open spec fn stride(self) -> int {
        self.width * 4
    }

    pub open spec fn wf(self) -> bool {
        self.data.len() == self.stride() * self.height
    }

    /// The part `rect` of the resource as a picture.
    pub open spec fn picture(self, rect: Rect) -> Picture {
        Picture {
            width: rect.width,
            height: rect.height,
            stride: self.stride() as u32,
            format: self.format,
            data: self.data.skip(rect.y * self.stride() + rect.x * 4),
        }
    }
}

pub struct Scanout {
    /// Resolution asked by the host (0 by 0 = display off).
    pub req_width: u32,
    pub req_height: u32,
    /// Resource shown (0 = none) and its part.
    pub resource_id: u32,
    pub rect: Rect,
    pub cursor: Cursor,
}

/// What a [`Scanout`] holds.
#[verifier::ext_equal]
pub struct Head {
    pub req_width: u32,
    pub req_height: u32,
    pub resource_id: u32,
    pub rect: Rect,
    pub cursor: Pointer,
}

impl View for Scanout {
    type V = Head;

    open spec fn view(&self) -> Head {
        Head {
            req_width: self.req_width,
            req_height: self.req_height,
            resource_id: self.resource_id,
            rect: self.rect,
            cursor: self.cursor@,
        }
    }
}

pub open spec fn heads_view(s: Seq<Scanout>) -> Seq<Head> {
    s.map_values(|h: Scanout| h@)
}

impl Head {
    pub open spec fn off(req_width: u32, req_height: u32) -> Head {
        Head {
            req_width,
            req_height,
            resource_id: 0,
            rect: Rect::empty(),
            cursor: Pointer::hidden(),
        }
    }
}

pub struct VirtioGpu<D> {
    pub config: GpuConfig,
    pub backend: D,
    pub resources: Table<Resource>,
    pub hostmem: u64,
    pub scanouts: Vec<Scanout>,
    pub events_read: u32,
    pub display_changed: bool,
}

/// What a [`VirtioGpu`] holds.
#[verifier::ext_equal]
pub struct Gpu<M> {
    /// Number of scanouts and resolution of the first, as configured.
    pub configured: (u32, u32, u32),
    pub edid: bool,
    pub monitor: Monitor,
    pub max_hostmem: u64,
    pub display: M,
    pub resources: Seq<(u64, Res)>,
    pub hostmem: u64,
    pub heads: Seq<Head>,
    pub events_read: u32,
    pub display_changed: bool,
}

impl<D: DisplayBackend> View for VirtioGpu<D> {
    type V = Gpu<D::Model>;

    open spec fn view(&self) -> Gpu<D::Model> {
        Gpu {
            configured: (self.config.scanouts, self.config.width, self.config.height),
            edid: self.config.edid,
            monitor: self.config.monitor@,
            max_hostmem: self.config.max_hostmem,
            display: self.backend.model(),
            resources: self.resources@,
            hostmem: self.hostmem,
            heads: heads_view(self.scanouts@),
            events_read: self.events_read,
            display_changed: self.display_changed,
        }
    }
}

/// Memory of a list of resources.
pub open spec fn mem_sum(s: Seq<(u64, Res)>) -> nat
    decreases s.len(),
{
    if s.len() == 0 {
        0
    } else {
        mem_sum(s.drop_last()) + s.last().1.data.len()
    }
}

pub open spec fn resources_wf(s: Seq<(u64, Res)>) -> bool {
    forall|i: int| 0 <= i < s.len() ==> (#[trigger] s[i]).1.wf()
}

/// What a scanout shows exists and has the part that is shown.
pub open spec fn head_ok(resources: Seq<(u64, Res)>, h: Head) -> bool {
    h.resource_id != 0 ==> {
        &&& keyed(resources, h.resource_id as u64)
        &&& h.rect.inside(
            value(resources, h.resource_id as u64).width,
            value(resources, h.resource_id as u64).height,
        )
        &&& value(resources, h.resource_id as u64).width <= MAX_SHOWN_WIDTH
        &&& h.rect.width >= 16
        &&& h.rect.height >= 16
    }
}

pub open spec fn heads_ok(resources: Seq<(u64, Res)>, heads: Seq<Head>) -> bool {
    forall|i: int| 0 <= i < heads.len() ==> head_ok(resources, #[trigger] heads[i])
}

pub open spec fn gpu_wf<D: DisplayBackend>(g: Gpu<D::Model>) -> bool {
    &&& D::sound(g.display)
    &&& ordered(g.resources)
    &&& !keyed(g.resources, 0)
    &&& resources_wf(g.resources)
    &&& 1 <= g.heads.len() <= 16
    &&& heads_ok(g.resources, g.heads)
    &&& g.hostmem == mem_sum(g.resources)
    &&& g.max_hostmem <= usize::MAX
    &&& g.hostmem <= g.max_hostmem
}

// ---- Steps ----------------------------------------------------------------------

/// The scanout `i` is switched off.
pub open spec fn gpu_disabled<D: DisplayBackend>(g: Gpu<D::Model>, i: int) -> Gpu<D::Model> {
    if g.heads[i].resource_id == 0 {
        g
    } else {
        Gpu {
            heads: g.heads.update(
                i,
                Head { resource_id: 0, rect: Rect::empty(), ..g.heads[i] },
            ),
            display: D::disabled(g.display, i as u32),
            ..g
        }
    }
}

/// Those of the first `n` scanouts that show the resource `id` are switched off.
pub open spec fn gpu_unshown<D: DisplayBackend>(g: Gpu<D::Model>, id: u32, n: nat) -> Gpu<D::Model>
    decreases n,
{
    if n == 0 {
        g
    } else {
        let g1 = gpu_unshown::<D>(g, id, (n - 1) as nat);
        if g1.heads[n - 1].resource_id == id {
            gpu_disabled::<D>(g1, n - 1)
        } else {
            g1
        }
    }
}

/// The resource `id` goes away.
pub open spec fn gpu_destroyed<D: DisplayBackend>(g: Gpu<D::Model>, id: u32) -> Gpu<D::Model> {
    if keyed(g.resources, id as u64) {
        let g1 = gpu_unshown::<D>(g, id, g.heads.len());
        Gpu {
            resources: without(g1.resources, id as u64),
            hostmem: (g1.hostmem - value(g1.resources, id as u64).data.len()) as u64,
            ..g1
        }
    } else {
        g
    }
}

/// The resources with the ids given go away, one after another.
pub open spec fn gpu_destroyed_all<D: DisplayBackend>(g: Gpu<D::Model>, ids: Seq<u64>) -> Gpu<
    D::Model,
>
    decreases ids.len(),
{
    if ids.len() == 0 {
        g
    } else {
        gpu_destroyed::<D>(gpu_destroyed_all::<D>(g, ids.drop_last()), ids.last() as u32)
    }
}

pub open spec fn gpu_created<M>(g: Gpu<M>, id: u32, format: u32, width: u32, height: u32) -> (
    Gpu<M>,
    u32,
) {
    let size = width * 4 * height;
    if id == 0 || keyed(g.resources, id as u64) {
        (g, RESP_ERR_INVALID_RESOURCE_ID)
    } else {
        match PixelFormat::of(format) {
            None => (g, RESP_ERR_INVALID_PARAMETER),
            Some(format) => if size + g.hostmem >= g.max_hostmem {
                (g, RESP_ERR_OUT_OF_MEMORY)
            } else {
                (
                    Gpu {
                        hostmem: (g.hostmem + size) as u64,
                        resources: put(
                            g.resources,
                            id as u64,
                            Res { width, height, format, data: zeros(size as nat), backing: None },
                        ),
                        ..g
                    },
                    RESP_OK_NODATA,
                )
            },
        }
    }
}

pub open spec fn gpu_unref<D: DisplayBackend>(g: Gpu<D::Model>, id: u32) -> (Gpu<D::Model>, u32) {
    if keyed(g.resources, id as u64) {
        (gpu_destroyed::<D>(g, id), RESP_OK_NODATA)
    } else {
        (g, RESP_ERR_INVALID_RESOURCE_ID)
    }
}

/// What stands in the way of a command that needs a resource with backing.
pub open spec fn unbacked<M>(g: Gpu<M>, id: u32) -> Option<u32> {
    if !keyed(g.resources, id as u64) {
        Some(RESP_ERR_INVALID_RESOURCE_ID)
    } else if value(g.resources, id as u64).backing is None {
        Some(RESP_ERR_UNSPEC)
    } else {
        None
    }
}

pub open spec fn gpu_scanout_set<D: DisplayBackend>(
    g: Gpu<D::Model>,
    rect: Rect,
    scanout: u32,
    id: u32,
) -> (Gpu<D::Model>, u32) {
    let r = value(g.resources, id as u64);
    if scanout >= g.heads.len() {
        (g, RESP_ERR_INVALID_SCANOUT_ID)
    } else if id == 0 {
        (gpu_disabled::<D>(g, scanout as int), RESP_OK_NODATA)
    } else if let Some(e) = unbacked(g, id) {
        (g, e)
    } else if rect.width < 16 || rect.height < 16 || !rect.inside(r.width, r.height) || r.width
        > MAX_SHOWN_WIDTH {
        (g, RESP_ERR_INVALID_PARAMETER)
    } else {
        (
            Gpu {
                heads: g.heads.update(
                    scanout as int,
                    Head { resource_id: id, rect, ..g.heads[scanout as int] },
                ),
                display: D::updated(
                    g.display,
                    scanout,
                    r.picture(rect),
                    Rect { x: 0, y: 0, width: rect.width, height: rect.height },
                ),
                ..g
            },
            RESP_OK_NODATA,
        )
    }
}

/// The first `n` scanouts that show the resource show its change.
pub open spec fn gpu_refreshed<D: DisplayBackend>(
    g: Gpu<D::Model>,
    id: u32,
    rect: Rect,
    n: nat,
) -> Gpu<D::Model>
    decreases n,
{
    if n == 0 {
        g
    } else {
        let g1 = gpu_refreshed::<D>(g, id, rect, (n - 1) as nat);
        let h = g1.heads[n - 1];
        if h.resource_id != id {
            g1
        } else {
            match rect.common(h.rect) {
                None => g1,
                Some(d) => Gpu {
                    display: D::updated(
                        g1.display,
                        (n - 1) as u32,
                        value(g1.resources, id as u64).picture(h.rect),
                        Rect {
                            x: (d.x - h.rect.x) as u32,
                            y: (d.y - h.rect.y) as u32,
                            width: d.width,
                            height: d.height,
                        },
                    ),
                    ..g1
                },
            }
        }
    }
}

pub open spec fn gpu_flushed<D: DisplayBackend>(g: Gpu<D::Model>, rect: Rect, id: u32) -> (
    Gpu<D::Model>,
    u32,
) {
    let r = value(g.resources, id as u64);
    if !keyed(g.resources, id as u64) {
        (g, RESP_ERR_INVALID_RESOURCE_ID)
    } else if !rect.inside(r.width, r.height) {
        (g, RESP_ERR_INVALID_PARAMETER)
    } else {
        (gpu_refreshed::<D>(g, id, rect, g.heads.len()), RESP_OK_NODATA)
    }
}

/// `data` with `[at, end)` taken from the backing (entries in order, seen as one
/// space) from `offset` on; what the backing does not cover stays as it is.
pub open spec fn backed(
    m: Mem,
    backing: Seq<(u64, u32)>,
    offset: int,
    data: Seq<u8>,
    at: int,
    end: int,
) -> Seq<u8>
    decreases backing.len(),
{
    if backing.len() == 0 || at >= end {
        data
    } else {
        let (addr, len) = backing[0];
        if offset >= len {
            backed(m, backing.skip(1), offset - len, data, at, end)
        } else {
            let n = min_len((len - offset) as nat, (end - at) as nat);
            let data2 = if holds(m, addr + offset, n) {
                patched(data, at, bytes_at(m, addr + offset, n))
            } else {
                data
            };
            backed(m, backing.skip(1), 0, data2, at + n, end)
        }
    }
}

/// The first `n` rows of the rectangle are taken from the backing.
pub open spec fn rows_backed(
    m: Mem,
    backing: Seq<(u64, u32)>,
    offset: int,
    data: Seq<u8>,
    stride: int,
    rect: Rect,
    n: int,
) -> Seq<u8>
    decreases n,
{
    if n <= 0 {
        data
    } else {
        let before = rows_backed(m, backing, offset, data, stride, rect, n - 1);
        let at = (rect.y + (n - 1)) * stride + rect.x * 4;
        backed(m, backing, offset + stride * (n - 1), before, at, at + rect.width * 4)
    }
}

/// The pixels of the resource after a transfer: whole rows at once if the
/// rectangle covers the width, else row by row.
pub open spec fn moved(m: Mem, r: Res, offset: u64, rect: Rect) -> Seq<u8> {
    let backing = r.backing->0;
    if rect.x == 0 && rect.width == r.width {
        backed(
            m,
            backing,
            offset as int,
            r.data,
            rect.y * r.stride(),
            rect.y * r.stride() + r.stride() * rect.height,
        )
    } else {
        rows_backed(
            m,
            backing,
            offset as int,
            r.data,
            r.stride(),
            rect,
            rect.height as int,
        )
    }
}

pub open spec fn gpu_moved<M>(g: Gpu<M>, m: Mem, rect: Rect, offset: u64, id: u32) -> (
    Gpu<M>,
    u32,
) {
    let r = value(g.resources, id as u64);
    if let Some(e) = unbacked(g, id) {
        (g, e)
    } else if !rect.inside(r.width, r.height) {
        (g, RESP_ERR_INVALID_PARAMETER)
    } else {
        (
            Gpu {
                resources: put(
                    g.resources,
                    id as u64,
                    Res { data: moved(m, r, offset, rect), ..r },
                ),
                ..g
            },
            RESP_OK_NODATA,
        )
    }
}

/// An entry of the backing: all of it lies in RAM.
pub open spec fn entry_ok(m: Mem, addr: u64, len: u32) -> bool {
    holds(m, addr as int, len as nat)
}

pub open spec fn entry_at(ents: Seq<u8>, i: int) -> (u64, u32) {
    (le64_at(ents, 16 * i), le32_at(ents, 16 * i + 8))
}

pub open spec fn entries_at(ents: Seq<u8>, n: nat) -> Seq<(u64, u32)> {
    Seq::new(n, |i: int| entry_at(ents, i))
}

/// The backing in `ents`, if every entry lies in RAM.
pub open spec fn backing_in(m: Mem, ents: Seq<u8>, n: nat) -> Option<Seq<(u64, u32)>> {
    if forall|i: int|
        0 <= i < n ==> entry_ok(m, (#[trigger] entry_at(ents, i)).0, entry_at(ents, i).1) {
        Some(entries_at(ents, n))
    } else {
        None
    }
}

pub open spec fn gpu_attached<M>(g: Gpu<M>, m: Mem, c: Chain, id: u32, n: u32) -> (Gpu<M>, u32) {
    let r = value(g.resources, id as u64);
    if !keyed(g.resources, id as u64) {
        (g, RESP_ERR_INVALID_RESOURCE_ID)
    } else if r.backing is Some || n > MAX_BACKING_ENTRIES {
        (g, RESP_ERR_UNSPEC)
    } else {
        match gathered(m, c.readable, 32, 16 * n) {
            Err(_) => (g, RESP_ERR_UNSPEC),
            Ok(ents) => if ents.len() != 16 * n {
                (g, RESP_ERR_UNSPEC)
            } else {
                match backing_in(m, ents, n as nat) {
                    None => (g, RESP_ERR_UNSPEC),
                    Some(b) => (
                        Gpu {
                            resources: put(
                                g.resources,
                                id as u64,
                                Res { backing: Some(b), ..r },
                            ),
                            ..g
                        },
                        RESP_OK_NODATA,
                    ),
                }
            },
        }
    }
}

pub open spec fn gpu_detached<M>(g: Gpu<M>, id: u32) -> (Gpu<M>, u32) {
    if let Some(e) = unbacked(g, id) {
        (g, e)
    } else {
        (
            Gpu {
                resources: put(
                    g.resources,
                    id as u64,
                    Res { backing: None, ..value(g.resources, id as u64) },
                ),
                ..g
            },
            RESP_OK_NODATA,
        )
    }
}

/// One entry of the display information.
pub open spec fn head_info(h: Head) -> Seq<u8> {
    if h.req_width != 0 && h.req_height != 0 {
        zeros(8) + le32_bytes(h.req_width) + le32_bytes(h.req_height) + le32_bytes(1) + zeros(4)
    } else {
        zeros(24)
    }
}

/// The first `n` entries of the display information.
pub open spec fn display_info(heads: Seq<Head>, n: nat) -> Seq<u8>
    decreases n,
{
    if n == 0 {
        Seq::empty()
    } else {
        display_info(heads, (n - 1) as nat) + if n <= heads.len() {
            head_info(heads[n - 1])
        } else {
            zeros(24)
        }
    }
}

/// The answer to GET_EDID: its code and what follows the header.
pub open spec fn gpu_edid<M>(g: Gpu<M>, scanout: u32) -> (u32, Seq<u8>) {
    if scanout >= g.heads.len() {
        (RESP_ERR_INVALID_PARAMETER, Seq::empty())
    } else {
        let h = g.heads[scanout as int];
        (
            RESP_OK_EDID,
            le32_bytes(1024) + zeros(4) + (Monitor {
                prefx: h.req_width,
                prefy: h.req_height,
                ..g.monitor
            }).edid(1024),
        )
    }
}

pub open spec fn rect_at(cmd: Seq<u8>) -> Rect {
    Rect {
        x: le32_at(cmd, 24),
        y: le32_at(cmd, 28),
        width: le32_at(cmd, 32),
        height: le32_at(cmd, 36),
    }
}

/// Length of each command.
pub open spec fn command_len(ty: u32) -> nat {
    if ty == CMD_GET_EDID || ty == CMD_RESOURCE_UNREF || ty == CMD_RESOURCE_DETACH_BACKING || ty
        == CMD_RESOURCE_ATTACH_BACKING {
        32
    } else if ty == CMD_RESOURCE_CREATE_2D {
        40
    } else if ty == CMD_SET_SCANOUT || ty == CMD_RESOURCE_FLUSH {
        48
    } else if ty == CMD_TRANSFER_TO_HOST_2D {
        56
    } else {
        24
    }
}

/// A command that changes the device is carried out: its code.
pub open spec fn gpu_changed<D: DisplayBackend>(g: Gpu<D::Model>, c: Chain, m: Mem, cmd: Seq<u8>) -> (
    Gpu<D::Model>,
    u32,
) {
    let ty = le32_at(cmd, 0);
    if ty == CMD_RESOURCE_CREATE_2D {
        gpu_created(g, le32_at(cmd, 24), le32_at(cmd, 28), le32_at(cmd, 32), le32_at(cmd, 36))
    } else if ty == CMD_RESOURCE_UNREF {
        gpu_unref::<D>(g, le32_at(cmd, 24))
    } else if ty == CMD_SET_SCANOUT {
        gpu_scanout_set::<D>(g, rect_at(cmd), le32_at(cmd, 40), le32_at(cmd, 44))
    } else if ty == CMD_RESOURCE_FLUSH {
        gpu_flushed::<D>(g, rect_at(cmd), le32_at(cmd, 40))
    } else if ty == CMD_TRANSFER_TO_HOST_2D {
        gpu_moved(g, m, rect_at(cmd), le64_at(cmd, 40), le32_at(cmd, 48))
    } else if ty == CMD_RESOURCE_ATTACH_BACKING {
        gpu_attached(g, m, c, le32_at(cmd, 24), le32_at(cmd, 28))
    } else if ty == CMD_RESOURCE_DETACH_BACKING {
        gpu_detached(g, le32_at(cmd, 24))
    } else if ty == CMD_RESOURCE_CREATE_BLOB || ty == CMD_SET_SCANOUT_BLOB {
        (g, RESP_ERR_INVALID_PARAMETER)
    } else {
        (g, RESP_ERR_UNSPEC)
    }
}

/// A command is carried out: its code and what follows the header of the answer.
#[verifier::opaque]
pub open spec fn gpu_done<D: DisplayBackend>(g: Gpu<D::Model>, c: Chain, m: Mem, cmd: Seq<u8>) -> (
    Gpu<D::Model>,
    u32,
    Seq<u8>,
) {
    let ty = le32_at(cmd, 0);
    if cmd.len() < 24 || cmd.len() < command_len(ty) {
        (g, RESP_ERR_INVALID_PARAMETER, Seq::empty())
    } else if ty == CMD_GET_DISPLAY_INFO {
        (g, RESP_OK_DISPLAY_INFO, display_info(g.heads, 16))
    } else if ty == CMD_GET_EDID && g.edid {
        let (code, body) = gpu_edid(g, le32_at(cmd, 24));
        (g, code, body)
    } else {
        let (g2, code) = gpu_changed::<D>(g, c, m, cmd);
        (g2, code, Seq::empty())
    }
}

/// An answer: header (with the fence of the command, if it has one) and body.
pub open spec fn answered(cmd: Seq<u8>, code: u32, body: Seq<u8>) -> Seq<u8> {
    let hdr = if cmd.len() >= 24 {
        cmd.take(24)
    } else {
        cmd + zeros((24 - cmd.len()) as nat)
    };
    let fence = if le32_at(hdr, 4) & FLAG_FENCE != 0 {
        le32_bytes(FLAG_FENCE) + hdr.subrange(8, 20)
    } else {
        zeros(16)
    };
    le32_bytes(code) + fence + zeros(4) + body
}

/// The command of a chain (empty if it is not all in RAM).
pub open spec fn command_in(c: Chain, m: Mem) -> Seq<u8> {
    match c.contents(m, 0) {
        Ok(cmd) => cmd,
        Err(_) => Seq::empty(),
    }
}

/// The commands of the control queue are carried out.
pub open spec fn gpu_controlled<D: DisplayBackend>(
    g: Gpu<D::Model>,
    q: Virtqueue,
    m: Mem,
    fuel: nat,
) -> (Gpu<D::Model>, Virtqueue, Mem, Result<(), QueueError>)
    decreases fuel,
{
    if fuel == 0 {
        (g, q, m, Ok(()))
    } else {
        let (q1, m1, next) = q.popped(m);
        match next {
            Err(e) => (g, q1, m1, Err(e)),
            Ok(None) => (g, q1, m1, Ok(())),
            Ok(Some(c)) => {
                let cmd = command_in(c, m1);
                let (g2, code, body) = gpu_done::<D>(g, c, m1, cmd);
                let (m2, r2) = scattered(m1, c.writable, 0, answered(cmd, code, body));
                match r2 {
                    Err(e) => (g2, q1, m2, Err(QueueError::Ram(e))),
                    Ok(n) => {
                        let (q3, m3, r3) = q1.returned(m2, c.head, n as u32);
                        match r3 {
                            Err(e) => (g2, q3, m3, Err(QueueError::Ram(e))),
                            Ok(_) => gpu_controlled::<D>(g2, q3, m3, (fuel - 1) as nat),
                        }
                    },
                }
            },
        }
    }
}

/// The cursor after UPDATE_CURSOR.
pub open spec fn cursor_set<M>(g: Gpu<M>, cmd: Seq<u8>) -> Pointer {
    let id = le32_at(cmd, 40);
    let r = value(g.resources, id as u64);
    Pointer {
        resource_id: id,
        x: le32_at(cmd, 28),
        y: le32_at(cmd, 32),
        hot_x: le32_at(cmd, 44),
        hot_y: le32_at(cmd, 48),
        image: if id > 0 && keyed(g.resources, id as u64) && r.width == CURSOR_SIZE && r.height
            == CURSOR_SIZE {
            r.data
        } else {
            Seq::empty()
        },
    }
}

/// A command of the cursor queue.
#[verifier::opaque]
pub open spec fn gpu_pointed<D: DisplayBackend>(g: Gpu<D::Model>, cmd: Seq<u8>) -> Gpu<D::Model> {
    let scanout = le32_at(cmd, 24);
    if cmd.len() < 56 || scanout >= g.heads.len() {
        g
    } else {
        let h = g.heads[scanout as int];
        let cursor = if le32_at(cmd, 0) == CMD_MOVE_CURSOR {
            Pointer { x: le32_at(cmd, 28), y: le32_at(cmd, 32), ..h.cursor }
        } else {
            cursor_set(g, cmd)
        };
        Gpu {
            heads: g.heads.update(scanout as int, Head { cursor, ..h }),
            display: D::pointed(g.display, scanout, cursor),
            ..g
        }
    }
}

/// The commands of the cursor queue are carried out.
pub open spec fn gpu_cursored<D: DisplayBackend>(
    g: Gpu<D::Model>,
    q: Virtqueue,
    m: Mem,
    fuel: nat,
) -> (Gpu<D::Model>, Virtqueue, Mem, Result<(), QueueError>)
    decreases fuel,
{
    if fuel == 0 {
        (g, q, m, Ok(()))
    } else {
        let (q1, m1, next) = q.popped(m);
        match next {
            Err(e) => (g, q1, m1, Err(e)),
            Ok(None) => (g, q1, m1, Ok(())),
            Ok(Some(c)) => match gathered(m1, c.readable, 0, 56) {
                Err(e) => (g, q1, m1, Err(QueueError::Ram(e))),
                Ok(cmd) => {
                    let g2 = gpu_pointed::<D>(g, cmd);
                    let (q3, m3, r3) = q1.returned(m1, c.head, 0);
                    match r3 {
                        Err(e) => (g2, q3, m3, Err(QueueError::Ram(e))),
                        Ok(_) => gpu_cursored::<D>(g2, q3, m3, (fuel - 1) as nat),
                    }
                },
            },
        }
    }
}

/// One service: a change of the displays is announced, then the control queue,
/// then the cursor queue.
pub open spec fn gpu_served<D: DisplayBackend>(g: Gpu<D::Model>, w: Work) -> (
    Gpu<D::Model>,
    Work,
    Result<(), QueueError>,
) {
    let g0 = Gpu { display_changed: false, ..g };
    let w0 = Work { config_changed: w.config_changed || g.display_changed, ..w };
    let (g1, cq, m1, r1) = gpu_controlled::<D>(g0, w.queues[0], w.mem, SERVICE_LIMIT as nat);
    let w1 = Work { queues: w0.queues.update(0, cq), mem: m1, ..w0 };
    if r1 is Err {
        (g1, w1, r1)
    } else {
        let (g2, pq, m2, r2) = gpu_cursored::<D>(g1, w1.queues[1], m1, SERVICE_LIMIT as nat);
        (g2, Work { queues: w1.queues.update(1, pq), mem: m2, ..w1 }, r2)
    }
}

/// Another backend receives the picture and the cursor of the first `n` scanouts.
pub open spec fn display_shown<D: DisplayBackend>(g: Gpu<D::Model>, d: D::Model, n: nat) -> D::Model
    decreases n,
{
    if n == 0 {
        d
    } else {
        let d1 = display_shown::<D>(g, d, (n - 1) as nat);
        let h = g.heads[n - 1];
        let d2 = if h.resource_id != 0 && keyed(g.resources, h.resource_id as u64) {
            D::updated(
                d1,
                (n - 1) as u32,
                value(g.resources, h.resource_id as u64).picture(h.rect),
                Rect { x: 0, y: 0, width: h.rect.width, height: h.rect.height },
            )
        } else {
            d1
        };
        if h.cursor != Pointer::hidden() {
            D::pointed(d2, (n - 1) as u32, h.cursor)
        } else {
            d2
        }
    }
}

/// Bits of `events_read` that a write to the configuration space clears
/// (`events_clear`, offset 4).
pub open spec fn clear_mask(offset: u64, data: Seq<u8>) -> u32 {
    le32_at(
        Seq::new(
            4,
            |k: int|
                if offset <= 4 + k < offset + data.len() {
                    data[4 + k - offset]
                } else {
                    0u8
                },
        ),
        0,
    )
}

// ---- Facts about the steps ------------------------------------------------------

proof fn lemma_sum_insert(s: Seq<(u64, Res)>, i: int, e: (u64, Res))
    requires
        0 <= i <= s.len(),
    ensures
        mem_sum(s.insert(i, e)) == mem_sum(s) + e.1.data.len(),
    decreases s.len(),
{
    let t = s.insert(i, e);
    if i == s.len() {
        assert(t.drop_last() =~= s);
    } else {
        assert(t.drop_last() =~= s.drop_last().insert(i, e));
        lemma_sum_insert(s.drop_last(), i, e);
    }
}

proof fn lemma_sum_remove(s: Seq<(u64, Res)>, i: int)
    requires
        0 <= i < s.len(),
    ensures
        mem_sum(s.remove(i)) + s[i].1.data.len() == mem_sum(s),
    decreases s.len(),
{
    if i == s.len() - 1 {
        assert(s.remove(i) =~= s.drop_last());
    } else {
        assert(s.remove(i).drop_last() =~= s.drop_last().remove(i));
        lemma_sum_remove(s.drop_last(), i);
    }
}

proof fn lemma_sum_update(s: Seq<(u64, Res)>, i: int, e: (u64, Res))
    requires
        0 <= i < s.len(),
        e.1.data.len() == s[i].1.data.len(),
    ensures
        mem_sum(s.update(i, e)) == mem_sum(s),
    decreases s.len(),
{
    if i == s.len() - 1 {
        assert(s.update(i, e).drop_last() =~= s.drop_last());
    } else {
        assert(s.update(i, e).drop_last() =~= s.drop_last().update(i, e));
        lemma_sum_update(s.drop_last(), i, e);
    }
}

proof fn lemma_sum_part(s: Seq<(u64, Res)>, i: int)
    requires
        0 <= i < s.len(),
    ensures
        s[i].1.data.len() <= mem_sum(s),
{
    lemma_sum_remove(s, i);
}

/// Replacing a resource by one of the same size keeps the device well formed.
proof fn lemma_put_wf<D: DisplayBackend>(g: Gpu<D::Model>, id: u32, r: Res)
    requires
        gpu_wf::<D>(g),
        keyed(g.resources, id as u64),
        r.wf(),
        r.width == value(g.resources, id as u64).width,
        r.height == value(g.resources, id as u64).height,
    ensures
        gpu_wf::<D>(Gpu { resources: put(g.resources, id as u64, r), ..g }),
{
    let s = g.resources;
    let t = put(s, id as u64, r);
    lemma_rank(s, id as u64);
    law_table_put(s, id as u64, r, 0);
    assert(s[rank(s, id as u64)].1.wf());
    lemma_sum_update(s, rank(s, id as u64), (id as u64, r));
    assert forall|i: int| 0 <= i < t.len() implies (#[trigger] t[i]).1.wf() by {
        if i != rank(s, id as u64) {
            assert(t[i] == s[i]);
        }
    }
    assert forall|i: int| 0 <= i < g.heads.len() implies head_ok(t, #[trigger] g.heads[i]) by {
        law_table_put(s, id as u64, r, g.heads[i].resource_id as u64);
        assert(head_ok(s, g.heads[i]));
    }
}

/// A new resource keeps the device well formed.
proof fn lemma_new_wf<D: DisplayBackend>(g: Gpu<D::Model>, id: u32, r: Res)
    requires
        gpu_wf::<D>(g),
        id != 0,
        !keyed(g.resources, id as u64),
        r.wf(),
        g.hostmem + r.data.len() <= g.max_hostmem,
    ensures
        gpu_wf::<D>(
            Gpu {
                resources: put(g.resources, id as u64, r),
                hostmem: (g.hostmem + r.data.len()) as u64,
                ..g
            },
        ),
{
    let s = g.resources;
    let t = put(s, id as u64, r);
    lemma_rank(s, id as u64);
    law_table_put(s, id as u64, r, 0);
    lemma_sum_insert(s, rank(s, id as u64), (id as u64, r));
    assert forall|i: int| 0 <= i < t.len() implies (#[trigger] t[i]).1.wf() by {
        let k = rank(s, id as u64);
        if i < k {
            assert(t[i] == s[i]);
        } else if i > k {
            assert(t[i] == s[i - 1]);
        }
    }
    assert forall|i: int| 0 <= i < g.heads.len() implies head_ok(t, #[trigger] g.heads[i]) by {
        law_table_put(s, id as u64, r, g.heads[i].resource_id as u64);
        assert(head_ok(s, g.heads[i]));
    }
}

/// A resource that no scanout shows can go.
proof fn lemma_gone_wf<D: DisplayBackend>(g: Gpu<D::Model>, id: u32)
    requires
        gpu_wf::<D>(g),
        keyed(g.resources, id as u64),
        forall|i: int| 0 <= i < g.heads.len() ==> (#[trigger] g.heads[i]).resource_id != id,
    ensures
        value(g.resources, id as u64).data.len() <= g.hostmem,
        gpu_wf::<D>(
            Gpu {
                resources: without(g.resources, id as u64),
                hostmem: (g.hostmem - value(g.resources, id as u64).data.len()) as u64,
                ..g
            },
        ),
{
    let s = g.resources;
    let t = without(s, id as u64);
    lemma_rank(s, id as u64);
    law_table_without(s, id as u64, 0);
    lemma_sum_remove(s, rank(s, id as u64));
    assert forall|i: int| 0 <= i < t.len() implies (#[trigger] t[i]).1.wf() by {
        if i < rank(s, id as u64) {
            assert(t[i] == s[i]);
        } else {
            assert(t[i] == s[i + 1]);
        }
    }
    assert forall|i: int| 0 <= i < g.heads.len() implies head_ok(t, #[trigger] g.heads[i]) by {
        law_table_without(s, id as u64, g.heads[i].resource_id as u64);
        assert(head_ok(s, g.heads[i]));
    }
}

/// Bounds of the pixels of a rectangle inside a resource.
proof fn lemma_rect_inside(r: Res, rect: Rect)
    requires
        r.wf(),
        rect.inside(r.width, r.height),
    ensures
        0 <= rect.y * r.stride(),
        0 <= r.stride() * rect.height,
        rect.y * r.stride() + r.stride() * rect.height <= r.data.len(),
        forall|h: int|
            #![trigger row_start(rect, r.stride(), h)]
            0 <= h < rect.height ==> {
                &&& 0 <= (rect.y + h) * r.stride() <= row_start(rect, r.stride(), h)
                &&& row_start(rect, r.stride(), h) + rect.width * 4 <= r.data.len()
            },
{
    let s = r.stride();
    let y = rect.y as int;
    let rh = rect.height as int;
    let h0 = r.height as int;
    assert(0 <= y * s) by (nonlinear_arith)
        requires
            y >= 0,
            s >= 0,
    ;
    assert(0 <= s * rh) by (nonlinear_arith)
        requires
            rh >= 0,
            s >= 0,
    ;
    assert(y * s + s * rh <= s * h0) by (nonlinear_arith)
        requires
            y + rh <= h0,
            s >= 0,
    ;
    assert forall|h: int|
        #![trigger row_start(rect, r.stride(), h)]
        0 <= h < rect.height implies 0 <= (rect.y + h) * r.stride() <= row_start(
        rect,
        r.stride(),
        h,
    ) && row_start(rect, r.stride(), h) + rect.width * 4 <= r.data.len() by {
        let a = y + h;
        assert(0 <= a * s) by (nonlinear_arith)
            requires
                a >= 0,
                s >= 0,
        ;
        assert(a * s + s <= s * h0) by (nonlinear_arith)
            requires
                a + 1 <= h0,
                s >= 0,
        ;
    }
}

pub open spec fn row_start(rect: Rect, stride: int, h: int) -> int {
    (rect.y + h) * stride + rect.x * 4
}

/// The part that a scanout shows is a valid picture.
proof fn lemma_picture(r: Res, rect: Rect)
    requires
        r.wf(),
        rect.inside(r.width, r.height),
        rect.height >= 16,
        rect.width >= 1,
        r.width <= MAX_SHOWN_WIDTH,
    ensures
        r.stride() <= u32::MAX,
        0 <= rect.y * r.stride(),
        0 <= rect.y * r.stride() + rect.x * 4 <= r.data.len(),
        r.picture(rect).wf(),
{
    let s = r.stride();
    let h0 = r.height as int;
    lemma_rect_inside(r, rect);
    assert(row_start(rect, s, 0) <= r.data.len());
    let last = row_start(rect, s, rect.height - 1);
    assert(last + rect.width * 4 <= r.data.len());
    assert(s * 16 <= s * h0) by (nonlinear_arith)
        requires
            h0 >= 16,
            s >= 0,
    ;
    let y = rect.y as int;
    let rh = rect.height as int;
    assert((y + (rh - 1)) * s == y * s + (rh - 1) * s) by (nonlinear_arith);
    assert((y + 0) * s == y * s);
    let p = r.picture(rect);
    assert(p.data.len() == r.data.len() - (y * s + rect.x * 4));
}

proof fn lemma_backed_len(
    m: Mem,
    backing: Seq<(u64, u32)>,
    offset: int,
    data: Seq<u8>,
    at: int,
    end: int,
)
    ensures
        backed(m, backing, offset, data, at, end).len() == data.len(),
    decreases backing.len(),
{
    if backing.len() == 0 || at >= end {
    } else {
        let (addr, len) = backing[0];
        if offset >= len {
            lemma_backed_len(m, backing.skip(1), offset - len, data, at, end);
        } else {
            let n = min_len((len - offset) as nat, (end - at) as nat);
            let data2 = if holds(m, addr + offset, n) {
                patched(data, at, bytes_at(m, addr + offset, n))
            } else {
                data
            };
            lemma_backed_len(m, backing.skip(1), 0, data2, at + n, end);
        }
    }
}

proof fn lemma_rows_len(
    m: Mem,
    backing: Seq<(u64, u32)>,
    offset: int,
    data: Seq<u8>,
    stride: int,
    rect: Rect,
    n: int,
)
    ensures
        rows_backed(m, backing, offset, data, stride, rect, n).len() == data.len(),
    decreases n,
{
    if n > 0 {
        lemma_rows_len(m, backing, offset, data, stride, rect, n - 1);
        let before = rows_backed(m, backing, offset, data, stride, rect, n - 1);
        let at = (rect.y + (n - 1)) * stride + rect.x * 4;
        lemma_backed_len(
            m,
            backing,
            offset + stride * (n - 1),
            before,
            at,
            at + rect.width * 4,
        );
    }
}

/// Reads from the backing into `data[at..end]`.
fn read_backing<R: GuestRam>(
    ram: &R,
    backing: &Vec<(u64, u32)>,
    offset: u128,
    data: &mut Vec<u8>,
    at: usize,
    end: usize,
)
    requires
        at <= end <= old(data)@.len(),
    ensures
        final(data)@ == backed(
            ram.mem(),
            backing@,
            offset as int,
            old(data)@,
            at as int,
            end as int,
        ),
        final(data)@.len() == old(data)@.len(),
{
    let mut i: usize = 0;
    let mut off: u128 = offset;
    let mut pos: usize = at;
    let ghost goal = backed(ram.mem(), backing@, offset as int, data@, at as int, end as int);
    assert(backing@.skip(0) =~= backing@);
    while i < backing.len() && pos < end
        invariant
            i <= backing@.len(),
            at <= pos <= end <= data@.len(),
            data@.len() == old(data)@.len(),
            goal == backed(
                ram.mem(),
                backing@,
                offset as int,
                old(data)@,
                at as int,
                end as int,
            ),
            goal == backed(
                ram.mem(),
                backing@.skip(i as int),
                off as int,
                data@,
                pos as int,
                end as int,
            ),
        decreases backing@.len() - i,
    {
        let (addr, len) = backing[i];
        assert(backing@.skip(i as int)[0] == (addr, len));
        assert(backing@.skip(i as int).skip(1) =~= backing@.skip(i + 1));
        if off >= len as u128 {
            off = off - len as u128;
        } else {
            let from: u32 = off as u32;
            let left: usize = (len - from) as usize;
            let n: usize = if left <= end - pos {
                left
            } else {
                end - pos
            };
            match ram_read(ram, addr, from as u64, n) {
                Ok(part) => {
                    copy_into(data, pos, part.as_slice());
                },
                Err(_) => {},
            }
            pos = pos + n;
            off = 0;
        }
        i += 1;
    }
}

impl<D: DisplayBackend> VirtioGpu<D> {
    pub open spec fn wf(self) -> bool {
        gpu_wf::<D>(self@)
    }

    /// Queues of 64 (control) and 16 (cursor).
    pub fn new(backend: D, config: GpuConfig) -> (r: Self)
        requires
            D::sound(backend.model()),
            config.max_hostmem <= usize::MAX,
        ensures
            r.wf(),
            ({
                let n: nat = if config.scanouts < 1 {
                    1
                } else if config.scanouts > MAX_SCANOUTS {
                    16
                } else {
                    config.scanouts as nat
                };
                r@ == (Gpu {
                    configured: (config.scanouts, config.width, config.height),
                    edid: config.edid,
                    monitor: config.monitor@,
                    max_hostmem: config.max_hostmem,
                    display: backend.model(),
                    resources: Seq::empty(),
                    hostmem: 0,
                    heads: Seq::new(
                        n,
                        |i: int|
                            if i == 0 {
                                Head::off(config.width, config.height)
                            } else {
                                Head::off(0, 0)
                            },
                    ),
                    events_read: 0,
                    display_changed: false,
                })
            }),
    {
        let n: usize = if config.scanouts < 1 {
            1
        } else if config.scanouts > MAX_SCANOUTS {
            MAX_SCANOUTS as usize
        } else {
            config.scanouts as usize
        };
        let mut scanouts: Vec<Scanout> = Vec::new();
        let ghost goal = Seq::new(
            n as nat,
            |i: int|
                if i == 0 {
                    Head::off(config.width, config.height)
                } else {
                    Head::off(0, 0)
                },
        );
        while scanouts.len() < n
            invariant
                scanouts@.len() <= n,
                goal == Seq::new(
                    n as nat,
                    |i: int|
                        if i == 0 {
                            Head::off(config.width, config.height)
                        } else {
                            Head::off(0, 0)
                        },
                ),
                heads_view(scanouts@) =~= goal.take(scanouts@.len() as int),
            decreases n - scanouts@.len(),
        {
            let first: bool = scanouts.len() == 0;
            scanouts.push(
                Scanout {
                    req_width: if first {
                        config.width
                    } else {
                        0
                    },
                    req_height: if first {
                        config.height
                    } else {
                        0
                    },
                    resource_id: 0,
                    rect: Rect { x: 0, y: 0, width: 0, height: 0 },
                    cursor: Cursor::hidden(),
                },
            );
        }
        let r = VirtioGpu {
            config,
            backend,
            resources: Table::new(),
            hostmem: 0,
            scanouts,
            events_read: 0,
            display_changed: false,
        };
        assert(r@.heads =~= goal);
        r
    }

    /// The part of a resource that a scanout shows.
    fn frame_of(r: &Resource, rect: Rect) -> (f: Frame<'_>)
        requires
            r@.wf(),
            rect.inside(r@.width, r@.height),
            rect.height >= 16,
            rect.width >= 16,
            r@.width <= MAX_SHOWN_WIDTH,
        ensures
            f@ == r@.picture(rect),
            f@.wf(),
            f@.width == rect.width,
            f@.height == rect.height,
    {
        let have: usize = r.data.len();
        proof {
            lemma_picture(r@, rect);
        }
        let stride: u64 = r.width as u64 * 4;
        assert(rect.y * stride <= have);
        let start: u64 = rect.y as u64 * stride + rect.x as u64 * 4;
        let data: &[u8] = vstd::slice::slice_subrange(r.data.as_slice(), start as usize, have);
        assert(data@ =~= r@.data.skip(rect.y * r@.stride() + rect.x * 4));
        Frame { width: rect.width, height: rect.height, stride: stride as u32, format: r.format, data }
    }

    /// Another backend in place of this one: it receives at once the picture and
    /// the cursor of every scanout.
    pub fn set_backend(&mut self, backend: D)
        requires
            old(self).wf(),
            D::sound(backend.model()),
        ensures
            final(self).wf(),
            final(self)@ == (Gpu {
                display: display_shown::<D>(
                    old(self)@,
                    backend.model(),
                    old(self)@.heads.len(),
                ),
                ..old(self)@
            }),
    {
        let ghost before = self@;
        self.backend = backend;
        let mut i: usize = 0;
        while i < self.scanouts.len()
            invariant
                i <= self.scanouts@.len() == before.heads.len(),
                gpu_wf::<D>(before),
                D::sound(self.backend.model()),
                self@ == (Gpu {
                    display: display_shown::<D>(before, backend.model(), i as nat),
                    ..before
                }),
            decreases self.scanouts@.len() - i,
        {
            let s: &Scanout = &self.scanouts[i];
            assert(self@.heads[i as int] == s@);
            assert(head_ok(before.resources, before.heads[i as int]));
            if s.resource_id != 0 {
                if let Some(r) = self.resources.get(s.resource_id as u64) {
                    proof {
                        let k = rank(before.resources, s.resource_id as u64);
                        lemma_rank(before.resources, s.resource_id as u64);
                        assert(before.resources[k].1.wf());
                        lemma_sum_part(before.resources, k);
                    }
                    let full = Rect { x: 0, y: 0, width: s.rect.width, height: s.rect.height };
                    let f: Frame<'_> = Self::frame_of(r, s.rect);
                    self.backend.update(i as u32, &f, full);
                }
            }
            if !s.cursor.is_hidden() {
                self.backend.cursor(i as u32, &s.cursor);
            }
            i += 1;
        }
    }

    pub fn backend_mut(&mut self) -> (r: &mut D)
        ensures
            *r == old(self).backend,
            final(self)@ == (Gpu { display: final(r).model(), ..old(self)@ }),
            final(self).backend == *final(r),
    {
        &mut self.backend
    }

    /// Typed access to the backend.
    pub fn backend_as_mut<T>(&mut self) -> (r: Option<&mut T>) where D: Holds<T>
        ensures
            match r {
                Some(t) => {
                    &&& Holds::<T>::held(&old(self).backend) == Some(*t)
                    &&& Holds::<T>::held(&final(self).backend) == Some(*final(t))
                    &&& final(self)@ == (Gpu { display: final(self)@.display, ..old(self)@ })
                },
                None => Holds::<T>::held(&old(self).backend) is None && *final(self) == *old(self),
            },
    {
        Holds::<T>::get_mut(&mut self.backend)
    }

    pub fn backend_as<T>(&self) -> (r: Option<&T>) where D: Holds<T>
        ensures
            match r {
                Some(t) => Holds::<T>::held(&self.backend) == Some(*t),
                None => Holds::<T>::held(&self.backend) is None,
            },
    {
        Holds::<T>::get(&self.backend)
    }

    /// Resolution asked for the scanout (0 by 0 = off), like the resizing of the
    /// window: the driver sees it with a configuration interrupt and reads
    /// GET_DISPLAY_INFO again.
    pub fn set_display(&mut self, scanout: u32, width: u32, height: u32)
        requires
            old(self).wf(),
        ensures
            final(self).wf(),
            final(self)@ == (if scanout < old(self)@.heads.len() {
                Gpu {
                    heads: old(self)@.heads.update(
                        scanout as int,
                        Head {
                            req_width: width,
                            req_height: height,
                            ..old(self)@.heads[scanout as int]
                        },
                    ),
                    events_read: old(self)@.events_read | EVENT_DISPLAY,
                    display_changed: true,
                    ..old(self)@
                }
            } else {
                old(self)@
            }),
    {
        if (scanout as usize) < self.scanouts.len() {
            let i: usize = scanout as usize;
            let ghost before = self@;
            self.scanouts[i].req_width = width;
            self.scanouts[i].req_height = height;
            self.events_read = self.events_read | EVENT_DISPLAY;
            self.display_changed = true;
            proof {
                let h = Head { req_width: width, req_height: height, ..before.heads[i as int] };
                assert(self@.heads =~= before.heads.update(i as int, h));
                assert(head_ok(before.resources, before.heads[i as int]));
                lemma_head_wf::<D>(before, i as int, h);
            }
        }
    }

    /// The present picture of the scanout, if it shows one.
    pub fn frame(&self, scanout: u32) -> (r: Option<Frame<'_>>)
        requires
            self.wf(),
        ensures
            ({
                let g = self@;
                let h = g.heads[scanout as int];
                if scanout < g.heads.len() && h.resource_id != 0 {
                    r matches Some(f) && f@ == value(g.resources, h.resource_id as u64).picture(
                        h.rect,
                    )
                } else {
                    r is None
                }
            }),
    {
        if scanout as usize >= self.scanouts.len() {
            return None;
        }
        let s: &Scanout = &self.scanouts[scanout as usize];
        assert(self@.heads[scanout as int] == s@);
        assert(head_ok(self@.resources, self@.heads[scanout as int]));
        if s.resource_id == 0 {
            return None;
        }
        match self.resources.get(s.resource_id as u64) {
            None => None,
            Some(r) => {
                proof {
                    let k = rank(self@.resources, s.resource_id as u64);
                    lemma_rank(self@.resources, s.resource_id as u64);
                    assert(self@.resources[k].1.wf());
                    lemma_sum_part(self@.resources, k);
                }
                Some(Self::frame_of(r, s.rect))
            },
        }
    }

    pub fn cursor(&self, scanout: u32) -> (r: Option<&Cursor>)
        ensures
            match r {
                Some(c) => scanout < self@.heads.len() && c@ == self@.heads[scanout as int].cursor,
                None => scanout >= self@.heads.len(),
            },
    {
        if (scanout as usize) < self.scanouts.len() {
            assert(self@.heads[scanout as int] == self.scanouts@[scanout as int]@);
            Some(&self.scanouts[scanout as usize].cursor)
        } else {
            None
        }
    }

    /// Existing 2D resources.
    pub fn resource_count(&self) -> (r: usize)
        ensures
            r == self@.resources.len(),
    {
        self.resources.len()
    }

    /// Memory taken by the resources.
    pub fn hostmem(&self) -> (r: u64)
        ensures
            r == self@.hostmem,
    {
        self.hostmem
    }

    fn config_bytes(&self) -> (r: Vec<u8>)
        requires
            self.wf(),
        ensures
            r@ == gpu_config(self@),
    {
        let mut c: Vec<u8> = Vec::new();
        push_le32(&mut c, self.events_read);
        push_zeros(&mut c, 4);
        push_le32(&mut c, self.scanouts.len() as u32);
        push_zeros(&mut c, 4);
        assert(c@ =~= gpu_config(self@));
        c
    }

    fn info(&self) -> (r: Vec<u8>)
        requires
            self.wf(),
        ensures
            r@ == display_info(self@.heads, 16),
    {
        let mut r: Vec<u8> = Vec::new();
        let mut i: usize = 0;
        assert(r@ =~= display_info(self@.heads, 0));
        while i < 16
            invariant
                i <= 16,
                r@ == display_info(self@.heads, i as nat),
            decreases 16 - i,
        {
            let ghost before = r@;
            if i < self.scanouts.len() && self.scanouts[i].req_width != 0
                && self.scanouts[i].req_height != 0 {
                assert(self@.heads[i as int] == self.scanouts@[i as int]@);
                push_zeros(&mut r, 8);
                push_le32(&mut r, self.scanouts[i].req_width);
                push_le32(&mut r, self.scanouts[i].req_height);
                push_le32(&mut r, 1);
                push_zeros(&mut r, 4);
                assert(r@ =~= before + head_info(self@.heads[i as int]));
            } else {
                proof {
                    if i < self.scanouts@.len() {
                        assert(self@.heads[i as int] == self.scanouts@[i as int]@);
                    }
                }
                push_zeros(&mut r, 24);
            }
            i += 1;
        }
        r
    }

    fn edid(&self, scanout: u32) -> (r: (u32, Vec<u8>))
        requires
            self.wf(),
        ensures
            (r.0, r.1@) == gpu_edid(self@, scanout),
    {
        if scanout as usize >= self.scanouts.len() {
            return (RESP_ERR_INVALID_PARAMETER, Vec::new());
        }
        let s: &Scanout = &self.scanouts[scanout as usize];
        assert(self@.heads[scanout as int] == s@);
        let blob: Vec<u8> = generate_for(&self.config.monitor, s.req_width, s.req_height, 1024);
        let mut r: Vec<u8> = Vec::new();
        push_le32(&mut r, 1024);
        push_zeros(&mut r, 4);
        push_bytes(&mut r, blob.as_slice());
        assert(r@ =~= gpu_edid(self@, scanout).1);
        (RESP_OK_EDID, r)
    }

    fn create_2d(&mut self, id: u32, format: u32, width: u32, height: u32) -> (code: u32)
        requires
            old(self).wf(),
        ensures
            final(self).wf(),
            (final(self)@, code) == gpu_created(old(self)@, id, format, width, height),
            final(self).config == old(self).config,
    {
        if id == 0 || self.resources.find(id as u64).is_some() {
            return RESP_ERR_INVALID_RESOURCE_ID;
        }
        let format: PixelFormat = match PixelFormat::from_virtio(format) {
            Some(f) => f,
            None => {
                return RESP_ERR_INVALID_PARAMETER;
            },
        };
        let w4: u128 = width as u128 * 4;
        let h: u128 = height as u128;
        assert(w4 * h <= 0x4_0000_0000 * 0x1_0000_0000) by (nonlinear_arith)
            requires
                0 <= w4 <= 0x4_0000_0000,
                0 <= h <= 0x1_0000_0000,
        ;
        let size: u128 = w4 * h;
        if size + self.hostmem as u128 >= self.config.max_hostmem as u128 {
            return RESP_ERR_OUT_OF_MEMORY;
        }
        let ghost r = Res { width, height, format, data: zeros(size as nat), backing: None };
        proof {
            lemma_new_wf::<D>(self@, id, r);
        }
        self.hostmem = self.hostmem + size as u64;
        let data: Vec<u8> = zeroed(size as usize);
        self.resources.insert(id as u64, Resource { width, height, format, data, backing: None });
        RESP_OK_NODATA
    }

    fn disable_scanout(&mut self, i: usize)
        requires
            old(self).wf(),
            i < old(self)@.heads.len(),
        ensures
            final(self).wf(),
            final(self)@ == gpu_disabled::<D>(old(self)@, i as int),
            final(self).config == old(self).config,
    {
        assert(self@.heads[i as int] == self.scanouts@[i as int]@);
        if self.scanouts[i].resource_id == 0 {
            return;
        }
        let ghost before = self@;
        self.scanouts[i].resource_id = 0;
        self.scanouts[i].rect = Rect { x: 0, y: 0, width: 0, height: 0 };
        self.backend.disable(i as u32);
        proof {
            let h = Head { resource_id: 0, rect: Rect::empty(), ..before.heads[i as int] };
            assert(self@.heads =~= before.heads.update(i as int, h));
            lemma_head_wf::<D>(before, i as int, h);
        }
    }

    fn destroy(&mut self, id: u32)
        requires
            old(self).wf(),
        ensures
            final(self).wf(),
            final(self)@ == gpu_destroyed::<D>(old(self)@, id),
            final(self).config == old(self).config,
    {
        if self.resources.find(id as u64).is_none() {
            return;
        }
        let ghost before = self@;
        let mut i: usize = 0;
        while i < self.scanouts.len()
            invariant
                self.wf(),
                self.config == old(self).config,
                i <= self.scanouts@.len() == before.heads.len(),
                id != 0,
                self@.resources == before.resources,
                self@ == gpu_unshown::<D>(before, id, i as nat),
                forall|k: int| 0 <= k < i ==> (#[trigger] self@.heads[k]).resource_id != id,
            decreases self.scanouts@.len() - i,
        {
            assert(self@.heads[i as int] == self.scanouts@[i as int]@);
            if self.scanouts[i].resource_id == id {
                self.disable_scanout(i);
            }
            i += 1;
        }
        proof {
            lemma_gone_wf::<D>(self@, id);
        }
        match self.resources.remove(id as u64) {
            Some(r) => {
                self.hostmem = self.hostmem - r.data.len() as u64;
            },
            None => {},
        }
    }

    fn unref(&mut self, id: u32) -> (code: u32)
        requires
            old(self).wf(),
        ensures
            final(self).wf(),
            (final(self)@, code) == gpu_unref::<D>(old(self)@, id),
            final(self).config == old(self).config,
    {
        if self.resources.find(id as u64).is_none() {
            return RESP_ERR_INVALID_RESOURCE_ID;
        }
        self.destroy(id);
        RESP_OK_NODATA
    }

    fn set_scanout(&mut self, rect: Rect, scanout: u32, id: u32) -> (code: u32)
        requires
            old(self).wf(),
        ensures
            final(self).wf(),
            (final(self)@, code) == gpu_scanout_set::<D>(old(self)@, rect, scanout, id),
            final(self).config == old(self).config,
    {
        if scanout as usize >= self.scanouts.len() {
            return RESP_ERR_INVALID_SCANOUT_ID;
        }
        let i: usize = scanout as usize;
        if id == 0 {
            self.disable_scanout(i);
            return RESP_OK_NODATA;
        }
        let ghost before = self@;
        match self.resources.get(id as u64) {
            None => {
                return RESP_ERR_INVALID_RESOURCE_ID;
            },
            Some(r) => {
                if r.backing.is_none() {
                    return RESP_ERR_UNSPEC;
                }
                if rect.width < 16 || rect.height < 16 || !rect.within(r.width, r.height) || r.width
                    > MAX_SHOWN_WIDTH {
                    return RESP_ERR_INVALID_PARAMETER;
                }
                proof {
                    let k = rank(before.resources, id as u64);
                    lemma_rank(before.resources, id as u64);
                    assert(before.resources[k].1.wf());
                    lemma_sum_part(before.resources, k);
                }
                let full = Rect { x: 0, y: 0, width: rect.width, height: rect.height };
                let f: Frame<'_> = Self::frame_of(r, rect);
                self.backend.update(scanout, &f, full);
            },
        }
        self.scanouts[i].resource_id = id;
        self.scanouts[i].rect = rect;
        proof {
            let h = Head { resource_id: id, rect, ..before.heads[i as int] };
            assert(before.heads[i as int] == heads_view(old(self).scanouts@)[i as int]);
            assert(self@.heads =~= before.heads.update(i as int, h));
            lemma_head_wf::<D>(before, i as int, h);
        }
        RESP_OK_NODATA
    }

    fn flush(&mut self, rect: Rect, id: u32) -> (code: u32)
        requires
            old(self).wf(),
        ensures
            final(self).wf(),
            (final(self)@, code) == gpu_flushed::<D>(old(self)@, rect, id),
            final(self).config == old(self).config,
    {
        let ghost before = self@;
        match self.resources.get(id as u64) {
            None => {
                return RESP_ERR_INVALID_RESOURCE_ID;
            },
            Some(r) => {
                if !rect.within(r.width, r.height) {
                    return RESP_ERR_INVALID_PARAMETER;
                }
                proof {
                    let k = rank(before.resources, id as u64);
                    lemma_rank(before.resources, id as u64);
                    assert(before.resources[k].1.wf());
                    lemma_sum_part(before.resources, k);
                }
                let mut i: usize = 0;
                while i < self.scanouts.len()
                    invariant
                        i <= self.scanouts@.len() == before.heads.len(),
                        gpu_wf::<D>(before),
                        D::sound(self.backend.model()),
                        keyed(before.resources, id as u64),
                        r@ == value(before.resources, id as u64),
                        r@.wf(),
                        id != 0,
                        self@.heads == before.heads,
                        self.config == old(self).config,
                        self@ == (Gpu { display: self@.display, ..before }),
                        self@ == gpu_refreshed::<D>(before, id, rect, i as nat),
                    decreases self.scanouts@.len() - i,
                {
                    let s: &Scanout = &self.scanouts[i];
                    assert(before.heads[i as int] == s@);
                    assert(head_ok(before.resources, before.heads[i as int]));
                    if s.resource_id == id {
                        if let Some(d) = rect.intersect(&s.rect) {
                            let dirty = Rect {
                                x: d.x - s.rect.x,
                                y: d.y - s.rect.y,
                                width: d.width,
                                height: d.height,
                            };
                            let f: Frame<'_> = Self::frame_of(r, s.rect);
                            self.backend.update(i as u32, &f, dirty);
                        }
                    }
                    i += 1;
                }
            },
        }
        RESP_OK_NODATA
    }

    /// Copies the pixels of a rectangle from the backing.
    fn fetch<R: GuestRam>(r: &mut Resource, ram: &R, rect: Rect, offset: u64)
        requires
            old(r)@.wf(),
            old(r)@.backing is Some,
            rect.inside(old(r)@.width, old(r)@.height),
        ensures
            final(r)@ == (Res { data: moved(ram.mem(), old(r)@, offset, rect), ..old(r)@ }),
            final(r)@.wf(),
    {
        let have: usize = r.data.len();
        let ghost before = r@;
        proof {
            lemma_rect_inside(before, rect);
        }
        let stride: u64 = r.width as u64 * 4;
        if let Some(backing) = &r.backing {
            if rect.x == 0 && rect.width == r.width {
                let at: u64 = rect.y as u64 * stride;
                let end: u64 = at + stride * rect.height as u64;
                read_backing(
                    ram,
                    backing,
                    offset as u128,
                    &mut r.data,
                    at as usize,
                    end as usize,
                );
            } else {
                let row: u64 = rect.width as u64 * 4;
                let mut h: u32 = 0;
                while h < rect.height
                    invariant
                        h <= rect.height,
                        stride == before.stride(),
                        row == rect.width * 4,
                        before.wf(),
                        have == before.data.len(),
                        r.data@.len() == have,
                        r@ == (Res { data: r.data@, ..before }),
                        rect.inside(before.width, before.height),
                        backing@ == before.backing->0,
                        r.data@ == rows_backed(
                            ram.mem(),
                            backing@,
                            offset as int,
                            before.data,
                            stride as int,
                            rect,
                            h as int,
                        ),
                    decreases rect.height - h,
                {
                    proof {
                        lemma_rect_inside(before, rect);
                        assert(row_start(rect, before.stride(), h as int) + rect.width * 4
                            <= before.data.len());
                        assert(0 <= stride * h <= 0x4_0000_0000 * 0x1_0000_0000) by (nonlinear_arith)
                            requires
                                0 <= stride <= 0x4_0000_0000,
                                0 <= h <= 0x1_0000_0000,
                        ;
                        lemma_rows_len(
                            ram.mem(),
                            backing@,
                            offset as int,
                            before.data,
                            stride as int,
                            rect,
                            h as int,
                        );
                    }
                    let y: u64 = rect.y as u64 + h as u64;
                    let at: usize = (y * stride + rect.x as u64 * 4) as usize;
                    let from: u128 = offset as u128 + stride as u128 * h as u128;
                    read_backing(ram, backing, from, &mut r.data, at, at + row as usize);
                    h += 1;
                }
            }
        }
        assert(r@ =~= Res { data: moved(ram.mem(), before, offset, rect), ..before });
    }

    fn transfer<R: GuestRam>(&mut self, ram: &R, rect: Rect, offset: u64, id: u32) -> (code: u32)
        requires
            old(self).wf(),
        ensures
            final(self).wf(),
            (final(self)@, code) == gpu_moved(old(self)@, ram.mem(), rect, offset, id),
            final(self).config == old(self).config,
    {
        let ghost before = self@;
        match self.resources.find(id as u64) {
            None => RESP_ERR_INVALID_RESOURCE_ID,
            Some(i) => {
                let r: &Resource = &self.resources.entries[i].1;
                assert(r@ == before.resources[i as int].1);
                if r.backing.is_none() {
                    return RESP_ERR_UNSPEC;
                }
                if !rect.within(r.width, r.height) {
                    return RESP_ERR_INVALID_PARAMETER;
                }
                assert(before.resources[i as int].1.wf());
                let r: &mut Resource = self.resources.slot(i);
                Self::fetch(r, ram, rect, offset);
                proof {
                    lemma_put_wf::<D>(before, id, r@);
                }
                RESP_OK_NODATA
            },
        }
    }

    /// The entries of a backing, if every one lies in RAM.
    fn read_entries<R: GuestRam>(ram: &R, ents: &Vec<u8>, n: usize) -> (r: Option<Vec<(u64, u32)>>)
        requires
            ents@.len() == 16 * n,
            n <= 16384,
        ensures
            match r {
                Some(b) => backing_in(ram.mem(), ents@, n as nat) == Some(b@),
                None => backing_in(ram.mem(), ents@, n as nat) is None,
            },
    {
        let mut b: Vec<(u64, u32)> = Vec::new();
        let mut i: usize = 0;
        while i < n
            invariant
                i <= n <= 16384,
                ents@.len() == 16 * n,
                b@ =~= entries_at(ents@, i as nat),
                forall|k: int|
                    0 <= k < i ==> entry_ok(
                        ram.mem(),
                        (#[trigger] entry_at(ents@, k)).0,
                        entry_at(ents@, k).1,
                    ),
            decreases n - i,
        {
            let addr: u64 = le64(ents.as_slice(), 16 * i);
            let len: u32 = le32(ents.as_slice(), 16 * i + 8);
            assert(entry_at(ents@, i as int) == (addr, len));
            if !ram_holds(ram, addr, len) {
                assert(!entry_ok(
                    ram.mem(),
                    entry_at(ents@, i as int).0,
                    entry_at(ents@, i as int).1,
                ));
                return None;
            }
            b.push((addr, len));
            i += 1;
        }
        Some(b)
    }

    fn attach_backing<R: GuestRam>(&mut self, c: &DescChain, ram: &R, id: u32, n: u32) -> (code: u32)
        requires
            old(self).wf(),
        ensures
            final(self).wf(),
            (final(self)@, code) == gpu_attached(old(self)@, ram.mem(), c@, id, n),
            final(self).config == old(self).config,
    {
        let ghost before = self@;
        match self.resources.find(id as u64) {
            None => RESP_ERR_INVALID_RESOURCE_ID,
            Some(i) => {
                let r: &Resource = &self.resources.entries[i].1;
                assert(r@ == before.resources[i as int].1);
                if r.backing.is_some() || n > MAX_BACKING_ENTRIES {
                    return RESP_ERR_UNSPEC;
                }
                let ents: Vec<u8> = match c.read_part(ram, 32, 16 * n as u64) {
                    Ok(e) => e,
                    Err(_) => {
                        return RESP_ERR_UNSPEC;
                    },
                };
                if ents.len() != 16 * n as usize {
                    return RESP_ERR_UNSPEC;
                }
                match Self::read_entries(ram, &ents, n as usize) {
                    None => RESP_ERR_UNSPEC,
                    Some(b) => {
                        assert(before.resources[i as int].1.wf());
                        let r: &mut Resource = self.resources.slot(i);
                        r.backing = Some(b);
                        proof {
                            lemma_put_wf::<D>(before, id, r@);
                        }
                        RESP_OK_NODATA
                    },
                }
            },
        }
    }

    fn detach_backing(&mut self, id: u32) -> (code: u32)
        requires
            old(self).wf(),
        ensures
            final(self).wf(),
            (final(self)@, code) == gpu_detached(old(self)@, id),
            final(self).config == old(self).config,
    {
        let ghost before = self@;
        match self.resources.find(id as u64) {
            None => RESP_ERR_INVALID_RESOURCE_ID,
            Some(i) => {
                let r: &Resource = &self.resources.entries[i].1;
                assert(r@ == before.resources[i as int].1);
                if r.backing.is_none() {
                    return RESP_ERR_UNSPEC;
                }
                assert(before.resources[i as int].1.wf());
                let r: &mut Resource = self.resources.slot(i);
                r.backing = None;
                proof {
                    lemma_put_wf::<D>(before, id, r@);
                }
                RESP_OK_NODATA
            },
        }
    }

    fn rect_in(cmd: &[u8]) -> (r: Rect)
        requires
            cmd@.len() >= 40,
        ensures
            r == rect_at(cmd@),
    {
        Rect { x: le32(cmd, 24), y: le32(cmd, 28), width: le32(cmd, 32), height: le32(cmd, 36) }
    }

    fn change<R: GuestRam>(&mut self, c: &DescChain, ram: &R, cmd: &[u8], ty: u32) -> (code: u32)
        requires
            old(self).wf(),
            cmd@.len() >= 24,
            cmd@.len() >= command_len(ty),
            ty == le32_at(cmd@, 0),
        ensures
            final(self).wf(),
            (final(self)@, code) == gpu_changed::<D>(old(self)@, c@, ram.mem(), cmd@),
            final(self).config == old(self).config,
    {
        match ty {
            CMD_RESOURCE_CREATE_2D => self.create_2d(
                le32(cmd, 24),
                le32(cmd, 28),
                le32(cmd, 32),
                le32(cmd, 36),
            ),
            CMD_RESOURCE_UNREF => self.unref(le32(cmd, 24)),
            CMD_SET_SCANOUT => self.set_scanout(Self::rect_in(cmd), le32(cmd, 40), le32(cmd, 44)),
            CMD_RESOURCE_FLUSH => self.flush(Self::rect_in(cmd), le32(cmd, 40)),
            CMD_TRANSFER_TO_HOST_2D => self.transfer(
                ram,
                Self::rect_in(cmd),
                le64(cmd, 40),
                le32(cmd, 48),
            ),
            CMD_RESOURCE_ATTACH_BACKING => self.attach_backing(
                c,
                ram,
                le32(cmd, 24),
                le32(cmd, 28),
            ),
            CMD_RESOURCE_DETACH_BACKING => self.detach_backing(le32(cmd, 24)),
            CMD_RESOURCE_CREATE_BLOB | CMD_SET_SCANOUT_BLOB => RESP_ERR_INVALID_PARAMETER,
            // GET_EDID without the feature, capsets, 3D, UUIDs.
            _ => RESP_ERR_UNSPEC,
        }
    }

    fn needed(ty: u32) -> (r: usize)
        ensures
            r == command_len(ty),
    {
        match ty {
            CMD_GET_EDID | CMD_RESOURCE_UNREF | CMD_RESOURCE_DETACH_BACKING
            | CMD_RESOURCE_ATTACH_BACKING => 32,
            CMD_RESOURCE_CREATE_2D => 40,
            CMD_SET_SCANOUT | CMD_RESOURCE_FLUSH => 48,
            CMD_TRANSFER_TO_HOST_2D => 56,
            _ => 24,
        }
    }

    fn dispatch<R: GuestRam>(&mut self, c: &DescChain, ram: &R, cmd: &[u8]) -> (r: (u32, Vec<u8>))
        requires
            old(self).wf(),
        ensures
            final(self).wf(),
            (final(self)@, r.0, r.1@) == gpu_done::<D>(old(self)@, c@, ram.mem(), cmd@),
            final(self).config == old(self).config,
    {
        reveal(gpu_done);
        if cmd.len() < HDR_LEN {
            return (RESP_ERR_INVALID_PARAMETER, Vec::new());
        }
        let ty: u32 = le32(cmd, 0);
        if cmd.len() < Self::needed(ty) {
            return (RESP_ERR_INVALID_PARAMETER, Vec::new());
        }
        if ty == CMD_GET_DISPLAY_INFO {
            return (RESP_OK_DISPLAY_INFO, self.info());
        }
        if ty == CMD_GET_EDID && self.config.edid {
            return self.edid(le32(cmd, 24));
        }
        (self.change(c, ram, cmd, ty), Vec::new())
    }

    fn answer(cmd: &Vec<u8>, code: u32, body: &Vec<u8>) -> (r: Vec<u8>)
        ensures
            r@ == answered(cmd@, code, body@),
    {
        let mut hdr: Vec<u8> = to_vec(cmd.as_slice());
        if hdr.len() > HDR_LEN {
            hdr.truncate(HDR_LEN);
        }
        let more: usize = HDR_LEN - hdr.len();
        push_zeros(&mut hdr, more);
        proof {
            if cmd@.len() >= 24 {
                assert(hdr@ =~= cmd@.take(24));
            }
        }
        let mut r: Vec<u8> = Vec::new();
        push_le32(&mut r, code);
        if le32(hdr.as_slice(), 4) & FLAG_FENCE != 0 {
            push_le32(&mut r, FLAG_FENCE);
            push_bytes(&mut r, vstd::slice::slice_subrange(hdr.as_slice(), 8, 20));
        } else {
            push_zeros(&mut r, 16);
        }
        push_zeros(&mut r, 4);
        push_bytes(&mut r, body.as_slice());
        assert(r@ =~= answered(cmd@, code, body@));
        r
    }

    fn control_queue<R: GuestRam>(&mut self, q: &mut Virtqueue, ram: &mut R) -> (r: Result<
        (),
        QueueError,
    >)
        requires
            old(self).wf(),
            old(q).wf(),
        ensures
            final(self).wf(),
            final(q).wf(),
            final(self).config == old(self).config,
            (final(self)@, *final(q), final(ram).mem(), r) == gpu_controlled::<D>(
                old(self)@,
                *old(q),
                old(ram).mem(),
                SERVICE_LIMIT as nat,
            ),
    {
        let mut fuel: u64 = SERVICE_LIMIT;
        while fuel > 0
            invariant
                self.wf(),
                q.wf(),
                self.config == old(self).config,
                gpu_controlled::<D>(old(self)@, *old(q), old(ram).mem(), SERVICE_LIMIT as nat)
                    == gpu_controlled::<D>(self@, *q, ram.mem(), fuel as nat),
            decreases fuel,
        {
            match q.pop(ram) {
                Err(e) => {
                    return Err(e);
                },
                Ok(None) => {
                    return Ok(());
                },
                Ok(Some(c)) => {
                    let cmd: Vec<u8> = match c.read_to_vec(ram, 0) {
                        Ok(v) => v,
                        Err(_) => Vec::new(),
                    };
                    assert(cmd@ =~= command_in(c@, ram.mem()));
                    let (code, body) = self.dispatch(&c, ram, cmd.as_slice());
                    let resp: Vec<u8> = Self::answer(&cmd, code, &body);
                    let n: usize = match c.write(ram, 0, resp.as_slice()) {
                        Ok(n) => n,
                        Err(e) => {
                            return Err(QueueError::Ram(e));
                        },
                    };
                    match q.push_used(ram, c.head, n as u32) {
                        Ok(_) => {},
                        Err(e) => {
                            return Err(QueueError::Ram(e));
                        },
                    }
                },
            }
            fuel = fuel - 1;
        }
        Ok(())
    }

    fn cursor_command(&mut self, cmd: &Vec<u8>)
        requires
            old(self).wf(),
        ensures
            final(self).wf(),
            final(self)@ == gpu_pointed::<D>(old(self)@, cmd@),
            final(self).config == old(self).config,
    {
        reveal(gpu_pointed);
        if cmd.len() < 56 {
            return;
        }
        let b: &[u8] = cmd.as_slice();
        let scanout: u32 = le32(b, 24);
        if scanout as usize >= self.scanouts.len() {
            return;
        }
        let i: usize = scanout as usize;
        let ghost before = self@;
        assert(before.heads[i as int] == self.scanouts@[i as int]@);
        let mut cursor: Cursor = self.scanouts[i].cursor.copy();
        cursor.x = le32(b, 28);
        cursor.y = le32(b, 32);
        if le32(b, 0) != CMD_MOVE_CURSOR {
            let id: u32 = le32(b, 40);
            cursor.resource_id = id;
            cursor.hot_x = le32(b, 44);
            cursor.hot_y = le32(b, 48);
            cursor.image = Vec::new();
            if id > 0 {
                if let Some(r) = self.resources.get(id as u64) {
                    if r.width == CURSOR_SIZE && r.height == CURSOR_SIZE {
                        cursor.image = to_vec(r.data.as_slice());
                    }
                }
            }
            assert(cursor@ =~= cursor_set(before, cmd@));
        } else {
            assert(cursor@ =~= Pointer {
                x: le32_at(cmd@, 28),
                y: le32_at(cmd@, 32),
                ..before.heads[i as int].cursor
            });
        }
        self.backend.cursor(scanout, &cursor);
        let ghost h = Head { cursor: cursor@, ..before.heads[i as int] };
        self.scanouts[i].cursor = cursor;
        proof {
            assert(self@.heads =~= before.heads.update(i as int, h));
            assert(head_ok(before.resources, before.heads[i as int]));
            lemma_head_wf::<D>(before, i as int, h);
        }
    }

    fn cursor_queue<R: GuestRam>(&mut self, q: &mut Virtqueue, ram: &mut R) -> (r: Result<
        (),
        QueueError,
    >)
        requires
            old(self).wf(),
            old(q).wf(),
        ensures
            final(self).wf(),
            final(q).wf(),
            final(self).config == old(self).config,
            (final(self)@, *final(q), final(ram).mem(), r) == gpu_cursored::<D>(
                old(self)@,
                *old(q),
                old(ram).mem(),
                SERVICE_LIMIT as nat,
            ),
    {
        let mut fuel: u64 = SERVICE_LIMIT;
        while fuel > 0
            invariant
                self.wf(),
                q.wf(),
                self.config == old(self).config,
                gpu_cursored::<D>(old(self)@, *old(q), old(ram).mem(), SERVICE_LIMIT as nat)
                    == gpu_cursored::<D>(self@, *q, ram.mem(), fuel as nat),
            decreases fuel,
        {
            match q.pop(ram) {
                Err(e) => {
                    return Err(e);
                },
                Ok(None) => {
                    return Ok(());
                },
                Ok(Some(c)) => {
                    let cmd: Vec<u8> = match c.read_part(ram, 0, 56) {
                        Ok(v) => v,
                        Err(e) => {
                            return Err(QueueError::Ram(e));
                        },
                    };
                    self.cursor_command(&cmd);
                    match q.push_used(ram, c.head, 0) {
                        Ok(_) => {},
                        Err(e) => {
                            return Err(QueueError::Ram(e));
                        },
                    }
                },
            }
            fuel = fuel - 1;
        }
        Ok(())
    }
}

/// The configuration space: events, number of scanouts, no capsets.
pub open spec fn gpu_config<M>(g: Gpu<M>) -> Seq<u8> {
    le32_bytes(g.events_read) + zeros(4) + le32_bytes(g.heads.len() as u32) + zeros(4)
}

/// Replacing a scanout by a sound one keeps the device well formed.
proof fn lemma_head_wf<D: DisplayBackend>(g: Gpu<D::Model>, i: int, h: Head)
    requires
        gpu_wf::<D>(g),
        0 <= i < g.heads.len(),
        head_ok(g.resources, h),
    ensures
        heads_ok(g.resources, g.heads.update(i, h)),
{
    assert forall|k: int| 0 <= k < g.heads.len() implies head_ok(
        g.resources,
        #[trigger] g.heads.update(i, h)[k],
    ) by {
        if k != i {
            assert(g.heads.update(i, h)[k] == g.heads[k]);
        }
    }
}

/// The keys of the resources.
pub open spec fn resource_ids(s: Seq<(u64, Res)>) -> Seq<u64> {
    s.map_values(|e: (u64, Res)| e.0)
}

/// The scanouts without their cursors.
pub open spec fn uncursored(heads: Seq<Head>) -> Seq<Head> {
    heads.map_values(|h: Head| Head { cursor: Pointer::hidden(), ..h })
}

/// A reset: every resource goes, and every cursor.
pub open spec fn gpu_cleared<D: DisplayBackend>(g: Gpu<D::Model>) -> Gpu<D::Model> {
    let g1 = gpu_destroyed_all::<D>(g, resource_ids(g.resources));
    Gpu { heads: uncursored(g1.heads), display_changed: false, ..g1 }
}

impl<D: DisplayBackend> VirtioDevice for VirtioGpu<D> {
    open spec fn dev_inv(&self) -> bool {
        self.wf()
    }

    open spec fn id(&self) -> u32 {
        ID_GPU
    }

    open spec fn offers(&self) -> u64 {
        if self.config.edid {
            F_EDID
        } else {
            0
        }
    }

    open spec fn sizes(&self) -> Seq<u16> {
        seq![64u16, 16u16]
    }

    open spec fn config(&self) -> Seq<u8> {
        gpu_config(self@)
    }

    open spec fn configured(pre: Self, offset: u64, data: Seq<u8>, post: Self) -> bool {
        post@ == (Gpu { events_read: pre@.events_read & !clear_mask(offset, data), ..pre@ })
    }

    open spec fn agreed(pre: Self, features: u64, post: Self, ok: bool) -> bool {
        post == pre && ok
    }

    open spec fn cleared(pre: Self, post: Self) -> bool {
        post@ == gpu_cleared::<D>(pre@)
    }

    open spec fn served(
        pre: Self,
        before: Work,
        post: Self,
        after: Work,
        r: Result<(), QueueError>,
    ) -> bool {
        (post@, after, r) == gpu_served::<D>(pre@, before)
    }

    fn device_id(&self) -> (r: u32) {
        ID_GPU
    }

    fn features(&self) -> (r: u64) {
        if self.config.edid {
            F_EDID
        } else {
            0
        }
    }

    fn queue_max_sizes(&self) -> (r: Vec<u16>) {
        vec![64u16, 16u16]
    }

    fn read_config(&self, offset: u64, data: &mut [u8]) {
        let c: Vec<u8> = self.config_bytes();
        read_config_bytes(c.as_slice(), offset, data);
    }

    fn write_config(&mut self, offset: u64, data: &[u8]) {
        let mut v: Vec<u8> = Vec::new();
        let n: usize = data.len();
        let ghost goal = Seq::new(
            4,
            |k: int|
                if offset <= 4 + k < offset + data@.len() {
                    data@[4 + k - offset]
                } else {
                    0u8
                },
        );
        let mut k: u64 = 0;
        while k < 4
            invariant
                k <= 4,
                n == data@.len(),
                goal == Seq::new(
                    4,
                    |k: int|
                        if offset <= 4 + k < offset + data@.len() {
                            data@[4 + k - offset]
                        } else {
                            0u8
                        },
                ),
                v@ =~= goal.take(k as int),
            decreases 4 - k,
        {
            let b: u8 = if offset <= 4 + k && ((4 + k - offset) as usize) < n {
                data[(4 + k - offset) as usize]
            } else {
                0
            };
            v.push(b);
            k += 1;
        }
        assert(v@ =~= goal);
        let mask: u32 = le32(v.as_slice(), 0);
        self.events_read = self.events_read & !mask;
    }

    fn negotiate(&mut self, features: u64) -> (r: bool) {
        true
    }

    fn reset(&mut self) {
        let ghost before = self@;
        let mut ids: Vec<u64> = Vec::new();
        let mut i: usize = 0;
        while i < self.resources.entries.len()
            invariant
                *self == *old(self),
                i <= self.resources.entries@.len(),
                ids@ =~= resource_ids(self@.resources).take(i as int),
            decreases self.resources.entries@.len() - i,
        {
            ids.push(self.resources.entries[i].0);
            i += 1;
        }
        assert(ids@ =~= resource_ids(before.resources));
        let mut k: usize = 0;
        assert(ids@.take(0) =~= Seq::<u64>::empty());
        while k < ids.len()
            invariant
                self.wf(),
                self.config == old(self).config,
                k <= ids@.len(),
                self@ == gpu_destroyed_all::<D>(before, ids@.take(k as int)),
            decreases ids@.len() - k,
        {
            assert(ids@.take(k + 1).drop_last() =~= ids@.take(k as int));
            self.destroy(ids[k] as u32);
            k += 1;
        }
        assert(ids@.take(k as int) =~= ids@);
        let ghost mid = self@;
        let mut h: usize = 0;
        while h < self.scanouts.len()
            invariant
                h <= self.scanouts@.len() == mid.heads.len(),
                gpu_wf::<D>(mid),
                self.config == old(self).config,
                self@ == (Gpu { heads: self@.heads, ..mid }),
                forall|k: int| 0 <= k < h ==> #[trigger] self@.heads[k] == uncursored(mid.heads)[k],
                forall|k: int| h <= k < mid.heads.len() ==> #[trigger] self@.heads[k] == mid.heads[k],
            decreases self.scanouts@.len() - h,
        {
            assert(self@.heads[h as int] == self.scanouts@[h as int]@);
            let ghost pre = self@.heads;
            self.scanouts[h].cursor = Cursor::hidden();
            assert(self@.heads =~= pre.update(
                h as int,
                Head { cursor: Pointer::hidden(), ..pre[h as int] },
            ));
            h += 1;
        }
        self.display_changed = false;
        proof {
            assert(self@.heads =~= uncursored(mid.heads));
            assert forall|k: int| 0 <= k < self@.heads.len() implies head_ok(
                self@.resources,
                #[trigger] self@.heads[k],
            ) by {
                assert(head_ok(mid.resources, mid.heads[k]));
            }
        }
    }

    fn service<R: GuestRam>(&mut self, ctx: &mut ServiceCtx, ram: &mut R) -> (r: Result<
        (),
        QueueError,
    >) {
        if self.display_changed {
            self.display_changed = false;
            ctx.config_changed();
        }
        let mut cq: Virtqueue = ctx.queues[0];
        let done = self.control_queue(&mut cq, ram);
        ctx.queues.set(0, cq);
        match done {
            Ok(_) => {},
            Err(e) => {
                return Err(e);
            },
        }
        let mut pq: Virtqueue = ctx.queues[1];
        let r = self.cursor_queue(&mut pq, ram);
        ctx.queues.set(1, pq);
        r
    }
}

/// The memory counted is the memory of the resources, and it stays within the
/// limit, whatever the guest creates.
pub proof fn law_hostmem_is_bounded<D: DisplayBackend>(
    g: Gpu<D::Model>,
    id: u32,
    format: u32,
    width: u32,
    height: u32,
)
    requires
        gpu_wf::<D>(g),
    ensures
        ({
            let g2 = gpu_created(g, id, format, width, height).0;
            g2.hostmem == mem_sum(g2.resources) && g2.hostmem <= g2.max_hostmem
        }),
{
    let size = width * 4 * height;
    assert(0 <= size) by (nonlinear_arith)
        requires
            size == width * 4 * height,
            width >= 0,
            height >= 0,
    ;
    let (g2, code) = gpu_created(g, id, format, width, height);
    if code == RESP_OK_NODATA {
        let r = Res {
            width,
            height,
            format: PixelFormat::of(format)->0,
            data: zeros(size as nat),
            backing: None,
        };
        lemma_new_wf::<D>(g, id, r);
    }
}

} // verus!
