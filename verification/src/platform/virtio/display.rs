//! Pictures: pixel formats, frames, the cursor, and where they are shown.
use vstd::prelude::*;
use crate::bytes::{copy_into, patched, to_vec, zeroed, zeros};
use crate::table::{keyed, lemma_rank, put, value, without, Table};

verus! {

/// 2D formats. The name gives the order of the bytes in memory (B8G8R8A8: B in
/// the first byte).
#[derive(Clone, Copy, Debug, PartialEq, Eq, Structural)]
pub enum PixelFormat {
    B8G8R8A8,
    B8G8R8X8,
    A8R8G8B8,
    X8R8G8B8,
    R8G8B8A8,
    X8B8G8R8,
    A8B8G8R8,
    R8G8B8X8,
}

impl PixelFormat {
    /// The number of the format in the protocol.
    pub open spec fn number(self) -> u32 {
        match self {
            PixelFormat::B8G8R8A8 => 1,
            PixelFormat::B8G8R8X8 => 2,
            PixelFormat::A8R8G8B8 => 3,
            PixelFormat::X8R8G8B8 => 4,
            PixelFormat::R8G8B8A8 => 67,
            PixelFormat::X8B8G8R8 => 68,
            PixelFormat::A8B8G8R8 => 121,
            PixelFormat::R8G8B8X8 => 134,
        }
    }

    /// The format with a number.
    pub open spec fn of(v: u32) -> Option<PixelFormat> {
        if v == 1 {
            Some(PixelFormat::B8G8R8A8)
        } else if v == 2 {
            Some(PixelFormat::B8G8R8X8)
        } else if v == 3 {
            Some(PixelFormat::A8R8G8B8)
        } else if v == 4 {
            Some(PixelFormat::X8R8G8B8)
        } else if v == 67 {
            Some(PixelFormat::R8G8B8A8)
        } else if v == 68 {
            Some(PixelFormat::X8B8G8R8)
        } else if v == 121 {
            Some(PixelFormat::A8B8G8R8)
        } else if v == 134 {
            Some(PixelFormat::R8G8B8X8)
        } else {
            None
        }
    }

    pub fn from_virtio(v: u32) -> (r: Option<Self>)
        ensures
            r == Self::of(v),
    {
        match v {
            1 => Some(PixelFormat::B8G8R8A8),
            2 => Some(PixelFormat::B8G8R8X8),
            3 => Some(PixelFormat::A8R8G8B8),
            4 => Some(PixelFormat::X8R8G8B8),
            67 => Some(PixelFormat::R8G8B8A8),
            68 => Some(PixelFormat::X8B8G8R8),
            121 => Some(PixelFormat::A8B8G8R8),
            134 => Some(PixelFormat::R8G8B8X8),
            _ => None,
        }
    }

    pub fn to_virtio(self) -> (r: u32)
        ensures
            r == self.number(),
            Self::of(r) == Some(self),
    {
        match self {
            PixelFormat::B8G8R8A8 => 1,
            PixelFormat::B8G8R8X8 => 2,
            PixelFormat::A8R8G8B8 => 3,
            PixelFormat::X8R8G8B8 => 4,
            PixelFormat::R8G8B8A8 => 67,
            PixelFormat::X8B8G8R8 => 68,
            PixelFormat::A8B8G8R8 => 121,
            PixelFormat::R8G8B8X8 => 134,
        }
    }

    /// All the formats have 32 bits.
    pub fn bytes_per_pixel(self) -> (r: u32)
        ensures
            r == 4,
    {
        4
    }

    /// A pixel (4 bytes in memory) in RGBA; the X channel becomes 255.
    pub open spec fn shown(self, p: Seq<u8>) -> Seq<u8> {
        match self {
            PixelFormat::B8G8R8A8 => seq![p[2], p[1], p[0], p[3]],
            PixelFormat::B8G8R8X8 => seq![p[2], p[1], p[0], 255],
            PixelFormat::A8R8G8B8 => seq![p[1], p[2], p[3], p[0]],
            PixelFormat::X8R8G8B8 => seq![p[1], p[2], p[3], 255],
            PixelFormat::R8G8B8A8 => seq![p[0], p[1], p[2], p[3]],
            PixelFormat::X8B8G8R8 => seq![p[3], p[2], p[1], 255],
            PixelFormat::A8B8G8R8 => seq![p[3], p[2], p[1], p[0]],
            PixelFormat::R8G8B8X8 => seq![p[0], p[1], p[2], 255],
        }
    }

    pub fn to_rgba(self, p: [u8; 4]) -> (r: [u8; 4])
        ensures
            r@ == self.shown(p@),
    {
        let r: [u8; 4] = match self {
            PixelFormat::B8G8R8A8 => [p[2], p[1], p[0], p[3]],
            PixelFormat::B8G8R8X8 => [p[2], p[1], p[0], 255],
            PixelFormat::A8R8G8B8 => [p[1], p[2], p[3], p[0]],
            PixelFormat::X8R8G8B8 => [p[1], p[2], p[3], 255],
            PixelFormat::R8G8B8A8 => [p[0], p[1], p[2], p[3]],
            PixelFormat::X8B8G8R8 => [p[3], p[2], p[1], 255],
            PixelFormat::A8B8G8R8 => [p[3], p[2], p[1], p[0]],
            PixelFormat::R8G8B8X8 => [p[0], p[1], p[2], 255],
        };
        assert(r@ =~= self.shown(p@));
        r
    }
}

/// A rectangle.
#[derive(Clone, Copy, Debug, Default, PartialEq, Eq, Structural)]
pub struct Rect {
    pub x: u32,
    pub y: u32,
    pub width: u32,
    pub height: u32,
}

impl Rect {
    pub fn new(x: u32, y: u32, width: u32, height: u32) -> (r: Self)
        ensures
            r == (Rect { x, y, width, height }),
    {
        Rect { x, y, width, height }
    }

    pub open spec fn empty() -> Rect {
        Rect { x: 0, y: 0, width: 0, height: 0 }
    }

    /// Inside an area of `w` by `h`.
    pub open spec fn inside(self, w: u32, h: u32) -> bool {
        self.x + self.width <= w && self.y + self.height <= h
    }

    pub fn within(&self, w: u32, h: u32) -> (r: bool)
        ensures
            r == self.inside(w, h),
    {
        self.x as u64 + self.width as u64 <= w as u64 && self.y as u64 + self.height as u64
            <= h as u64
    }

    /// What two rectangles have in common, if anything.
    pub open spec fn common(self, o: Rect) -> Option<Rect> {
        let x0 = if self.x >= o.x {
            self.x
        } else {
            o.x
        };
        let y0 = if self.y >= o.y {
            self.y
        } else {
            o.y
        };
        let x1 = if self.x + self.width <= o.x + o.width {
            self.x + self.width
        } else {
            o.x + o.width
        };
        let y1 = if self.y + self.height <= o.y + o.height {
            self.y + self.height
        } else {
            o.y + o.height
        };
        if x1 > x0 && y1 > y0 {
            Some(Rect { x: x0, y: y0, width: (x1 - x0) as u32, height: (y1 - y0) as u32 })
        } else {
            None
        }
    }

    pub fn intersect(&self, o: &Rect) -> (r: Option<Rect>)
        ensures
            r == self.common(*o),
    {
        let x0: u64 = if self.x >= o.x {
            self.x as u64
        } else {
            o.x as u64
        };
        let y0: u64 = if self.y >= o.y {
            self.y as u64
        } else {
            o.y as u64
        };
        let sx: u64 = self.x as u64 + self.width as u64;
        let ox: u64 = o.x as u64 + o.width as u64;
        let sy: u64 = self.y as u64 + self.height as u64;
        let oy: u64 = o.y as u64 + o.height as u64;
        let x1: u64 = if sx <= ox {
            sx
        } else {
            ox
        };
        let y1: u64 = if sy <= oy {
            sy
        } else {
            oy
        };
        if x1 > x0 && y1 > y0 {
            Some(
                Rect {
                    x: x0 as u32,
                    y: y0 as u32,
                    width: (x1 - x0) as u32,
                    height: (y1 - y0) as u32,
                },
            )
        } else {
            None
        }
    }
}

/// The picture of a scanout: the part of the resource that it shows. `data`
/// starts at the pixel (0, 0) of the scanout; the rows are `stride` bytes apart.
#[derive(Clone, Copy, Debug)]
pub struct Frame<'a> {
    pub width: u32,
    pub height: u32,
    pub stride: u32,
    pub format: PixelFormat,
    pub data: &'a [u8],
}

/// What a [`Frame`] shows.
#[verifier::ext_equal]
pub struct Picture {
    pub width: u32,
    pub height: u32,
    pub stride: u32,
    pub format: PixelFormat,
    pub data: Seq<u8>,
}

impl<'a> View for Frame<'a> {
    type V = Picture;

    open spec fn view(&self) -> Picture {
        Picture {
            width: self.width,
            height: self.height,
            stride: self.stride,
            format: self.format,
            data: self.data@,
        }
    }
}

impl Picture {
    /// Where the pixel (x, y) starts.
    pub open spec fn at(self, x: int, y: int) -> int {
        y * self.stride + x * 4
    }

    /// Every row lies in the data.
    pub open spec fn wf(self) -> bool {
        &&& self.width * 4 <= self.stride
        &&& self.height > 0 && self.width > 0 ==> (self.height - 1) * self.stride + self.width * 4
            <= self.data.len()
    }

    /// The pixel (x, y) in RGBA.
    pub open spec fn pixel(self, x: int, y: int) -> Seq<u8> {
        self.format.shown(self.data.subrange(self.at(x, y), self.at(x, y) + 4))
    }
}

proof fn lemma_pixel_inside(p: Picture, x: int, y: int)
    requires
        p.wf(),
        0 <= x < p.width,
        0 <= y < p.height,
    ensures
        0 <= p.at(x, y),
        p.at(x, y) + 4 <= p.data.len(),
{
    assert(y * p.stride <= (p.height - 1) * p.stride) by (nonlinear_arith)
        requires
            0 <= y <= p.height - 1,
            0 <= p.stride,
    ;
    assert(0 <= y * p.stride) by (nonlinear_arith)
        requires
            0 <= y,
            0 <= p.stride,
    ;
}

impl<'a> Frame<'a> {
    /// The pixel (x, y) in RGBA.
    pub fn rgba(&self, x: u32, y: u32) -> (r: [u8; 4])
        requires
            self@.at(x as int, y as int) + 4 <= self@.data.len(),
        ensures
            r@ == self@.pixel(x as int, y as int),
    {
        let have: usize = self.data.len();
        let ghost at = self@.at(x as int, y as int);
        assert(0 <= y * self.stride <= at) by (nonlinear_arith)
            requires
                at == y * self.stride + x * 4,
                y >= 0,
                self.stride >= 0,
                x >= 0,
        ;
        let o: usize = y as usize * self.stride as usize + x as usize * 4;
        let p: [u8; 4] = [self.data[o], self.data[o + 1], self.data[o + 2], self.data[o + 3]];
        assert(p@ =~= self.data@.subrange(at, at + 4));
        self.format.to_rgba(p)
    }
}

/// State of the cursor of a scanout.
#[derive(Clone, Debug, Default, PartialEq, Eq)]
pub struct Cursor {
    /// Resource of the picture (0 = hidden).
    pub resource_id: u32,
    pub x: u32,
    pub y: u32,
    pub hot_x: u32,
    pub hot_y: u32,
    /// Picture of 64 by 64 in the resource's format (empty if the resource is not
    /// 64 by 64 or does not exist), brought up to date by UPDATE_CURSOR.
    pub image: Vec<u8>,
}

/// What a [`Cursor`] says.
#[verifier::ext_equal]
pub struct Pointer {
    pub resource_id: u32,
    pub x: u32,
    pub y: u32,
    pub hot_x: u32,
    pub hot_y: u32,
    pub image: Seq<u8>,
}

impl View for Cursor {
    type V = Pointer;

    open spec fn view(&self) -> Pointer {
        Pointer {
            resource_id: self.resource_id,
            x: self.x,
            y: self.y,
            hot_x: self.hot_x,
            hot_y: self.hot_y,
            image: self.image@,
        }
    }
}

impl Pointer {
    pub open spec fn hidden() -> Pointer {
        Pointer { resource_id: 0, x: 0, y: 0, hot_x: 0, hot_y: 0, image: Seq::empty() }
    }
}

impl Cursor {
    /// No cursor.
    pub fn hidden() -> (r: Self)
        ensures
            r@ == Pointer::hidden(),
    {
        Cursor { resource_id: 0, x: 0, y: 0, hot_x: 0, hot_y: 0, image: Vec::new() }
    }

    pub fn copy(&self) -> (r: Self)
        ensures
            r@ == self@,
    {
        Cursor {
            resource_id: self.resource_id,
            x: self.x,
            y: self.y,
            hot_x: self.hot_x,
            hot_y: self.hot_y,
            image: to_vec(self.image.as_slice()),
        }
    }

    pub fn is_hidden(&self) -> (r: bool)
        ensures
            r == (self@ == Pointer::hidden()),
    {
        let r: bool = self.resource_id == 0 && self.x == 0 && self.y == 0 && self.hot_x == 0
            && self.hot_y == 0 && self.image.len() == 0;
        proof {
            if r {
                assert(self@ =~= Pointer::hidden());
            }
        }
        r
    }
}

/// Where the picture goes. The methods always receive valid data. By default the
/// spec functions are those of a display that keeps nothing.
pub trait DisplayBackend: Sized {
    type Model;

    spec fn model(&self) -> Self::Model;

    /// What holds of the backend between calls.
    open spec fn sound(m: Self::Model) -> bool {
        true
    }

    open spec fn updated(m: Self::Model, scanout: u32, frame: Picture, dirty: Rect) -> Self::Model {
        m
    }

    open spec fn disabled(m: Self::Model, scanout: u32) -> Self::Model {
        m
    }

    open spec fn pointed(m: Self::Model, scanout: u32, cursor: Pointer) -> Self::Model {
        m
    }

    /// The rectangle `dirty` (coordinates of the scanout) of `frame` has changed.
    /// After SET_SCANOUT it comes with the whole scanout.
    fn update(&mut self, scanout: u32, frame: &Frame<'_>, dirty: Rect)
        requires
            Self::sound(old(self).model()),
            frame@.wf(),
            dirty.inside(frame@.width, frame@.height),
        ensures
            Self::sound(final(self).model()),
            final(self).model() == Self::updated(old(self).model(), scanout, frame@, dirty),
    ;

    /// The scanout shows nothing any more.
    fn disable(&mut self, scanout: u32)
        requires
            Self::sound(old(self).model()),
        ensures
            Self::sound(final(self).model()),
            final(self).model() == Self::disabled(old(self).model(), scanout),
    ;

    /// Cursor defined (UPDATE_CURSOR) or moved (MOVE_CURSOR).
    fn cursor(&mut self, scanout: u32, cursor: &Cursor)
        requires
            Self::sound(old(self).model()),
        ensures
            Self::sound(final(self).model()),
            final(self).model() == Self::pointed(old(self).model(), scanout, cursor@),
    ;
}

/// The last picture of a scanout: its size and its pixels in RGBA, row by row.
#[derive(Clone, Debug, PartialEq, Eq)]
pub struct Screen {
    pub width: u32,
    pub height: u32,
    pub pixels: Vec<u8>,
}

/// What a [`Screen`] shows.
#[verifier::ext_equal]
pub struct Image {
    pub width: u32,
    pub height: u32,
    pub pixels: Seq<u8>,
}

impl View for Screen {
    type V = Image;

    open spec fn view(&self) -> Image {
        Image { width: self.width, height: self.height, pixels: self.pixels@ }
    }
}

impl Image {
    pub open spec fn wf(self) -> bool {
        self.pixels.len() == self.width * self.height * 4
    }

    pub open spec fn blank(width: u32, height: u32) -> Image {
        Image { width, height, pixels: zeros((width * height * 4) as nat) }
    }

    /// The image after the pixels of row `y` before `x` (from `x0` on) are taken
    /// over from the frame.
    pub open spec fn row_drawn(self, f: Picture, y: int, x0: int, x: int) -> Image
        decreases x - x0,
    {
        if x <= x0 {
            self
        } else {
            let i = self.row_drawn(f, y, x0, x - 1);
            Image {
                pixels: patched(i.pixels, (y * i.width + (x - 1)) * 4, f.pixel(x - 1, y)),
                ..i
            }
        }
    }

    /// The image after the rows of `dirty` before `y` are taken over.
    pub open spec fn drawn(self, f: Picture, dirty: Rect, y: int) -> Image
        decreases y - dirty.y,
    {
        if y <= dirty.y {
            self
        } else {
            self.drawn(f, dirty, y - 1).row_drawn(
                f,
                y - 1,
                dirty.x as int,
                dirty.x + dirty.width,
            )
        }
    }
}

/// A backend in memory: the last picture of every scanout, in RGBA.
#[derive(Debug)]
pub struct MemDisplay {
    pub screens: Table<Screen>,
    pub cursors: Table<Cursor>,
    /// Updates received.
    pub updates: u64,
}

/// What a [`MemDisplay`] holds.
#[verifier::ext_equal]
pub struct Wall {
    pub screens: Seq<(u64, Image)>,
    pub cursors: Seq<(u64, Pointer)>,
    pub updates: u64,
}

impl View for MemDisplay {
    type V = Wall;

    open spec fn view(&self) -> Wall {
        Wall { screens: self.screens@, cursors: self.cursors@, updates: self.updates }
    }
}

/// Every picture has all of its pixels.
pub open spec fn images_wf(s: Seq<(u64, Image)>) -> bool {
    forall|i: int| 0 <= i < s.len() ==> (#[trigger] s[i]).1.wf()
}

impl Default for MemDisplay {
    fn default() -> (r: Self)
        ensures
            r@ == (Wall { screens: Seq::empty(), cursors: Seq::empty(), updates: 0 }),
    {
        MemDisplay { screens: Table::new(), cursors: Table::new(), updates: 0 }
    }
}

proof fn lemma_image_offset(w: u32, h: u32, x: int, y: int, size: int)
    requires
        0 <= x < w,
        0 <= y < h,
        size == w * h * 4,
    ensures
        0 <= (y * w + x) * 4,
        (y * w + x) * 4 + 4 <= size,
        y * w + x < w * h,
        0 <= y * w,
{
    assert((y + 1) * w <= h * w) by (nonlinear_arith)
        requires
            0 <= y + 1 <= h,
            0 <= w,
    ;
    assert((y + 1) * w == y * w + w) by (nonlinear_arith);
    assert(h * w == w * h) by (nonlinear_arith);
    assert(0 <= y * w) by (nonlinear_arith)
        requires
            0 <= y,
            0 <= w,
    ;
}

impl MemDisplay {
    /// The pixel (x, y) of the scanout, in RGBA.
    pub fn pixel(&self, scanout: u32, x: u32, y: u32) -> (r: Option<[u8; 4]>)
        requires
            images_wf(self@.screens),
        ensures
            ({
                let i = value(self@.screens, scanout as u64);
                if keyed(self@.screens, scanout as u64) && x < i.width && y < i.height {
                    let o = (y * i.width + x) * 4;
                    r matches Some(p) && p@ == i.pixels.subrange(o, o + 4)
                } else {
                    r is None
                }
            }),
    {
        match self.screens.get(scanout as u64) {
            None => None,
            Some(s) => {
                if x >= s.width || y >= s.height {
                    return None;
                }
                let have: usize = s.pixels.len();
                proof {
                    lemma_rank(self@.screens, scanout as u64);
                    assert(s@.wf());
                    lemma_image_offset(s.width, s.height, x as int, y as int, have as int);
                }
                let o: usize = (y as usize * s.width as usize + x as usize) * 4;
                let p: [u8; 4] = [s.pixels[o], s.pixels[o + 1], s.pixels[o + 2], s.pixels[o + 3]];
                assert(p@ =~= s@.pixels.subrange(o as int, o + 4));
                Some(p)
            },
        }
    }
}

impl Screen {
    fn blank(width: u32, height: u32) -> (r: Self)
        requires
            width * height * 4 <= usize::MAX,
        ensures
            r@ == Image::blank(width, height),
            r@.wf(),
    {
        assert(0 <= width * height) by (nonlinear_arith);
        let n: usize = width as usize * height as usize * 4;
        Screen { width, height, pixels: zeroed(n) }
    }

    fn draw_row(&mut self, f: &Frame<'_>, y: u32, x0: u32, x1: u32)
        requires
            old(self)@.wf(),
            f@.wf(),
            old(self)@.width == f@.width,
            old(self)@.height == f@.height,
            y < f@.height,
            x0 <= x1 <= f@.width,
        ensures
            final(self)@ == old(self)@.row_drawn(f@, y as int, x0 as int, x1 as int),
            final(self)@.wf(),
            final(self)@.width == f@.width,
            final(self)@.height == f@.height,
    {
        let have: usize = self.pixels.len();
        let mut x: u32 = x0;
        while x < x1
            invariant
                have == self.pixels@.len(),
                self@.wf(),
                f@.wf(),
                self@.width == f@.width,
                self@.height == f@.height,
                y < f@.height,
                x0 <= x <= x1 <= f@.width,
                self@ == old(self)@.row_drawn(f@, y as int, x0 as int, x as int),
            decreases x1 - x,
        {
            proof {
                lemma_pixel_inside(f@, x as int, y as int);
                lemma_image_offset(self.width, self.height, x as int, y as int, have as int);
            }
            let p: [u8; 4] = f.rgba(x, y);
            let o: usize = (y as usize * self.width as usize + x as usize) * 4;
            copy_into(&mut self.pixels, o, &p);
            x += 1;
        }
    }

    fn draw(&mut self, f: &Frame<'_>, dirty: Rect)
        requires
            old(self)@.wf(),
            f@.wf(),
            old(self)@.width == f@.width,
            old(self)@.height == f@.height,
            dirty.inside(f@.width, f@.height),
        ensures
            final(self)@ == old(self)@.drawn(f@, dirty, dirty.y + dirty.height),
            final(self)@.wf(),
    {
        let mut y: u32 = dirty.y;
        let end: u32 = dirty.y + dirty.height;
        while y < end
            invariant
                self@.wf(),
                f@.wf(),
                self@.width == f@.width,
                self@.height == f@.height,
                dirty.inside(f@.width, f@.height),
                dirty.y <= y <= end == dirty.y + dirty.height,
                self@ == old(self)@.drawn(f@, dirty, y as int),
            decreases end - y,
        {
            self.draw_row(f, y, dirty.x, dirty.x + dirty.width);
            y += 1;
        }
    }
}

proof fn lemma_images_put(s: Seq<(u64, Image)>, k: u64, i: Image)
    requires
        images_wf(s),
        i.wf(),
    ensures
        images_wf(put(s, k, i)),
{
    lemma_rank(s, k);
    let t = put(s, k, i);
    let r = crate::table::rank(s, k);
    assert forall|j: int| 0 <= j < t.len() implies (#[trigger] t[j]).1.wf() by {
        if j < r {
            assert(t[j] == s[j]);
        } else if j > r {
            if keyed(s, k) {
                assert(t[j] == s[j]);
            } else {
                assert(t[j] == s[j - 1]);
            }
        }
    }
}

proof fn lemma_images_without(s: Seq<(u64, Image)>, k: u64)
    requires
        images_wf(s),
    ensures
        images_wf(without(s, k)),
{
    lemma_rank(s, k);
    let t = without(s, k);
    let r = crate::table::rank(s, k);
    assert forall|j: int| 0 <= j < t.len() implies (#[trigger] t[j]).1.wf() by {
        if keyed(s, k) && j >= r {
            assert(t[j] == s[j + 1]);
        } else {
            assert(t[j] == s[j]);
        }
    }
}

impl DisplayBackend for MemDisplay {
    type Model = Wall;

    open spec fn model(&self) -> Wall {
        self@
    }

    open spec fn sound(m: Wall) -> bool {
        images_wf(m.screens)
    }

    open spec fn updated(m: Wall, scanout: u32, frame: Picture, dirty: Rect) -> Wall {
        let old_image = value(m.screens, scanout as u64);
        let base = if keyed(m.screens, scanout as u64) && old_image.width == frame.width
            && old_image.height == frame.height {
            old_image
        } else {
            Image::blank(frame.width, frame.height)
        };
        Wall {
            screens: put(
                m.screens,
                scanout as u64,
                base.drawn(frame, dirty, dirty.y + dirty.height),
            ),
            updates: m.updates.wrapping_add(1),
            ..m
        }
    }

    open spec fn disabled(m: Wall, scanout: u32) -> Wall {
        Wall { screens: without(m.screens, scanout as u64), ..m }
    }

    open spec fn pointed(m: Wall, scanout: u32, cursor: Pointer) -> Wall {
        Wall { cursors: put(m.cursors, scanout as u64, cursor), ..m }
    }

    fn update(&mut self, scanout: u32, frame: &Frame<'_>, dirty: Rect) {
        self.updates = self.updates.wrapping_add(1);
        let ghost before = self@.screens;
        let have: usize = frame.data.len();
        match self.screens.find(scanout as u64) {
            Some(i) => {
                assert(self@.screens[i as int].1 == self.screens.entries@[i as int].1@);
                if self.screens.entries[i].1.width == frame.width
                    && self.screens.entries[i].1.height == frame.height {
                    let s: &mut Screen = self.screens.slot(i);
                    s.draw(frame, dirty);
                    proof {
                        lemma_images_put(before, scanout as u64, s@);
                    }
                    return;
                }
            },
            None => {},
        }
        proof {
            lemma_area(frame@);
        }
        let mut s: Screen = Screen::blank(frame.width, frame.height);
        s.draw(frame, dirty);
        proof {
            lemma_images_put(before, scanout as u64, s@);
        }
        self.screens.insert(scanout as u64, s);
    }

    fn disable(&mut self, scanout: u32) {
        proof {
            lemma_images_without(self@.screens, scanout as u64);
        }
        let _ = self.screens.remove(scanout as u64);
    }

    fn cursor(&mut self, scanout: u32, cursor: &Cursor) {
        self.cursors.insert(scanout as u64, cursor.copy());
    }
}

/// A frame has at least four bytes for every pixel.
proof fn lemma_area(p: Picture)
    requires
        p.wf(),
    ensures
        p.width * p.height * 4 <= p.data.len(),
{
    let w = p.width as int;
    let h = p.height as int;
    let s = p.stride as int;
    if w > 0 && h > 0 {
        assert((h - 1) * (w * 4) <= (h - 1) * s) by (nonlinear_arith)
            requires
                w * 4 <= s,
                h >= 1,
        ;
        assert(w * h * 4 == (h - 1) * (w * 4) + w * 4) by (nonlinear_arith);
    } else {
        assert(w * h * 4 == 0) by (nonlinear_arith)
            requires
                w == 0 || h == 0,
        ;
    }
}

} // verus!
