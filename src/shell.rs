//! The commit path: a client's buffer and damage, sanitized and turned into
//! copies into the shared framebuffer and `ShmImage` messages.
use vstd::prelude::*;

use crate::proto::{Configure, Outbound, Rectangle, TITLE_LEN};
use crate::qubes::{at_least_one, at_least_one_spec};

verus! {

/// Bytes per pixel of the shared framebuffer (32 bits per pixel).
pub const BYTES_PER_PIXEL: i32 = 4;

/// A rectangle in a client's coordinates: top-left corner and size.
#[derive(Clone, Copy, Debug, PartialEq, Eq, Structural)]
pub struct Region {
    pub x: i32,
    pub y: i32,
    pub w: i32,
    pub h: i32,
}

/// A damaged rectangle, in surface coordinates (scaled by the buffer scale)
/// or in buffer coordinates.
#[derive(Clone, Copy, Debug, PartialEq, Eq, Structural)]
pub enum Damage {
    Surface(Region),
    Buffer(Region),
}

/// The layout of a client's shm buffer, as the client claims it.
#[derive(Clone, Copy, Debug, PartialEq, Eq, Structural)]
pub struct BufferInfo {
    pub offset: i32,
    pub width: i32,
    pub height: i32,
    pub stride: i32,
}

/// The protocol error posted on a client's buffer.
#[derive(Clone, Copy, Debug, PartialEq, Eq, Structural)]
pub enum ShmError {
    /// The pool's size is not valid.
    InvalidFd,
    /// The buffer's layout or a damage rectangle is not valid.
    InvalidStride,
}

/// One line of damage: copy `len` bytes from `src` in the client's pool to
/// `dst` in the shared framebuffer, then send `ShmImage` of `image`.
#[derive(Clone, Copy, Debug, PartialEq, Eq, Structural)]
pub struct LineCopy {
    pub src: usize,
    pub dst: usize,
    pub len: usize,
    pub image: Rectangle,
}

/// A damage rectangle clipped to the buffer: destination corner and size,
/// and the corner it is copied from.
pub struct Clip {
    pub x: int,
    pub y: int,
    pub w: int,
    pub h: int,
    pub sx: int,
    pub sy: int,
}

/// Whether the client's buffer may be read: its lines lie inside a pool of
/// `pool_len` bytes.
pub open spec fn buffer_ok(pool_len: int, b: BufferInfo) -> bool {
    &&& b.offset >= 0
    &&& b.width > 0
    &&& b.height > 0
    &&& b.stride >= BYTES_PER_PIXEL * b.width
    &&& b.stride * b.height <= i32::MAX
    &&& b.offset + b.stride * b.height <= pool_len
}

/// The error that a buffer's layout gives, if any.
pub open spec fn buffer_error(pool_len: int, b: BufferInfo) -> Option<ShmError> {
    if pool_len > i32::MAX {
        Some(ShmError::InvalidFd)
    } else if !buffer_ok(pool_len, b) {
        Some(ShmError::InvalidStride)
    } else {
        None
    }
}

/// `a * b`, saturating at the bounds of `i32`.
pub open spec fn sat_mul(a: i32, b: i32) -> i32 {
    if a * b > i32::MAX {
        i32::MAX
    } else if a * b < i32::MIN {
        i32::MIN
    } else {
        (a * b) as i32
    }
}

/// A surface rectangle in buffer coordinates: corner and size scaled,
/// saturating, as the compositor's geometry types scale integer coordinates.
pub open spec fn scale_region(r: Region, scale: i32) -> Region {
    Region { x: sat_mul(r.x, scale), y: sat_mul(r.y, scale), w: sat_mul(r.w, scale), h: sat_mul(r.h, scale) }
}

/// A damage rectangle in buffer coordinates; a surface rectangle of
/// negative size is refused before it is scaled.
pub open spec fn to_buffer(d: Damage, scale: i32) -> Option<Region> {
    match d {
        Damage::Buffer(r) => Some(r),
        Damage::Surface(r) => if r.w < 0 || r.h < 0 {
            None
        } else {
            Some(scale_region(r, scale))
        },
    }
}

pub open spec fn min(a: int, b: int) -> int {
    if a <= b { a } else { b }
}

/// The damage rectangle `d` clipped to the buffer, or `None` where it is
/// refused; where the surface's geometry has a positive corner inside the
/// damage, the copy starts that far in and is that much narrower (lower).
pub open spec fn clip(b: BufferInfo, d: Damage, scale: i32, geometry: Option<Region>) -> Option<Clip> {
    match to_buffer(d, scale) {
        None => None,
        Some(r) => if r.w <= 0 || r.h <= 0 || r.x < 0 || r.y < 0 || r.x > b.width || r.y > b.height {
            None
        } else {
            let w = min(r.w as int, b.width - r.x);
            let h = min(r.h as int, b.height - r.y);
            let (gx, gy) = match geometry {
                Some(g) => (g.x as int, g.y as int),
                None => (0, 0),
            };
            let shift_x = gx > 0 && w > gx;
            let shift_y = gy > 0 && h > gy;
            Some(Clip {
                x: r.x as int,
                y: r.y as int,
                w: if shift_x { w - gx } else { w },
                h: if shift_y { h - gy } else { h },
                sx: if shift_x { r.x + gx } else { r.x as int },
                sy: if shift_y { r.y + gy } else { r.y as int },
            })
        },
    }
}

/// Line `i` of a clipped rectangle.
pub open spec fn line(b: BufferInfo, c: Clip, i: int) -> LineCopy {
    LineCopy {
        src: (b.offset + BYTES_PER_PIXEL * c.sx + (c.sy + i) * b.stride) as usize,
        dst: (BYTES_PER_PIXEL * (c.x + (c.y + i) * b.width)) as usize,
        len: (BYTES_PER_PIXEL * c.w) as usize,
        image: Rectangle { x: c.x as u32, y: c.y as u32, width: c.w as u32, height: c.h as u32 },
    }
}

pub open spec fn lines(b: BufferInfo, c: Clip) -> Seq<LineCopy> {
    Seq::new(c.h as nat, |i: int| line(b, c, i))
}

/// The lines of all of `damage`, in order; `None` where one rectangle is refused.
pub open spec fn planned(b: BufferInfo, damage: Seq<Damage>, scale: i32, geometry: Option<Region>) -> Option<Seq<LineCopy>>
    decreases damage.len(),
{
    if damage.len() == 0 {
        Some(Seq::empty())
    } else {
        match planned(b, damage.drop_last(), scale, geometry) {
            None => None,
            Some(p) => match clip(b, damage.last(), scale, geometry) {
                None => None,
                Some(c) => Some(p + lines(b, c)),
            },
        }
    }
}

/// What a commit's damage gives: the protocol error, or the lines to copy.
pub open spec fn damage_result(
    pool_len: int,
    b: BufferInfo,
    damage: Seq<Damage>,
    scale: i32,
    geometry: Option<Region>,
) -> Result<Seq<LineCopy>, ShmError> {
    match buffer_error(pool_len, b) {
        Some(e) => Err(e),
        None => match planned(b, damage, scale, geometry) {
            None => Err(ShmError::InvalidStride),
            Some(p) => Ok(p),
        },
    }
}

/// The state kept for each Wayland surface. `B` is the attached client
/// buffer together with the window's shared framebuffer.
pub struct SurfaceData<B> {
    pub buffer: Option<B>,
    /// The surface's window geometry, if it declared one.
    pub geometry: Option<Region>,
    /// Size of the attached buffer in pixels.
    pub buffer_dimensions: Option<(i32, i32)>,
    pub buffer_scale: i32,
    /// The window this surface is shown in.
    pub window: u32,
    /// The top-left corner last advertised by the daemon.
    pub coordinates: (u32, u32),
}

/// A change of the buffer attached to a surface.
pub enum BufferAssignment<B> {
    /// A new buffer of the given size in pixels.
    NewBuffer { buffer: B, width: i32, height: i32 },
    Removed,
}

impl<B> SurfaceData<B> {
    /// The state of a surface shown in `window`, with no buffer yet.
    pub fn new(window: u32) -> (r: Self)
        ensures
            r.window == window,
            r.buffer is None,
            r.geometry is None,
            r.buffer_dimensions is None,
            r.buffer_scale == 0,
            r.coordinates == (0u32, 0u32),
    {
        SurfaceData { buffer: None, geometry: None, buffer_dimensions: None, buffer_scale: 0, window, coordinates: (0, 0) }
    }

    /// Takes a new buffer, or drops the current one. The buffer that was
    /// attached before is handed back, to be released.
    pub fn process_new_buffers(&mut self, assignment: BufferAssignment<B>, scale: i32) -> (r: Option<B>)
        requires
            assignment matches BufferAssignment::NewBuffer { width, height, .. } ==> width > 0 && height > 0,
        ensures
            r == old(self).buffer,
            final(self).window == old(self).window,
            final(self).geometry == old(self).geometry,
            final(self).coordinates == old(self).coordinates,
            match assignment {
                BufferAssignment::NewBuffer { buffer, width, height } => {
                    &&& final(self).buffer == Some(buffer)
                    &&& final(self).buffer_dimensions == Some((width, height))
                    &&& final(self).buffer_scale == scale
                },
                BufferAssignment::Removed => {
                    &&& final(self).buffer is None
                    &&& final(self).buffer_dimensions is None
                    &&& final(self).buffer_scale == old(self).buffer_scale
                },
            },
    {
        match assignment {
            BufferAssignment::NewBuffer { buffer, width, height } => {
                self.buffer_dimensions = Some((width, height));
                self.buffer_scale = scale;
                let mut slot = Some(buffer);
                std::mem::swap(&mut self.buffer, &mut slot);
                slot
            },
            BufferAssignment::Removed => {
                let mut slot = None;
                std::mem::swap(&mut self.buffer, &mut slot);
                self.buffer_dimensions = None;
                slot
            },
        }
    }

    /// The size of the surface in logical units: each side of the buffer
    /// divided by its scale, rounding toward zero; `None` without a buffer,
    /// and where a division is undefined (a scale of zero, or `i32::MIN`
    /// divided by `-1`).
    pub fn size(&self) -> (r: Option<(i32, i32)>)
        ensures
            r == (match self.buffer_dimensions {
                Some((w, h)) => match (w.checked_div(self.buffer_scale), h.checked_div(self.buffer_scale)) {
                    (Some(a), Some(b)) => Some((a, b)),
                    _ => None,
                },
                None => None,
            }),
    {
        match self.buffer_dimensions {
            Some((w, h)) => match (w.checked_div(self.buffer_scale), h.checked_div(self.buffer_scale)) {
                (Some(a), Some(b)) => Some((a, b)),
                _ => None,
            },
            None => None,
        }
    }

}

/// `a * b`, saturating at the bounds of `i32`.
fn saturating_mul(a: i32, b: i32) -> (r: i32)
    ensures
        r == sat_mul(a, b),
{
    proof {
        assert(-0x8000_0000 * 0x8000_0000 <= a * b <= 0x8000_0000 * 0x8000_0000) by (nonlinear_arith)
            requires -0x8000_0000 <= a <= 0x7fff_ffff, -0x8000_0000 <= b <= 0x7fff_ffff;
    }
    let p: i64 = a as i64 * b as i64;
    if p > i32::MAX as i64 {
        i32::MAX
    } else if p < i32::MIN as i64 {
        i32::MIN
    } else {
        p as i32
    }
}

fn to_buffer_exec(d: Damage, scale: i32) -> (r: Option<Region>)
    ensures
        r == to_buffer(d, scale),
{
    match d {
        Damage::Buffer(r) => Some(r),
        Damage::Surface(r) => if r.w < 0 || r.h < 0 {
            None
        } else {
            Some(Region {
                x: saturating_mul(r.x, scale),
                y: saturating_mul(r.y, scale),
                w: saturating_mul(r.w, scale),
                h: saturating_mul(r.h, scale),
            })
        },
    }
}

/// `clip` on machine integers: corner, size and source corner.
fn clip_exec(b: BufferInfo, d: Damage, scale: i32, geometry: Option<Region>) -> (r: Option<(i32, i32, i32, i32, i32, i32)>)
    requires
        b.width > 0,
        b.height > 0,
    ensures
        r is None <==> clip(b, d, scale, geometry) is None,
        r matches Some(t) ==> ({
            let c = clip(b, d, scale, geometry)->Some_0;
            &&& c.x == t.0 && c.y == t.1 && c.w == t.2 && c.h == t.3 && c.sx == t.4 && c.sy == t.5
        }),
{
    let r = match to_buffer_exec(d, scale) {
        None => { return None; },
        Some(r) => r,
    };
    if r.w <= 0 || r.h <= 0 || r.x < 0 || r.y < 0 || r.x > b.width || r.y > b.height {
        return None;
    }
    let mut w = if r.w <= b.width - r.x { r.w } else { b.width - r.x };
    let mut h = if r.h <= b.height - r.y { r.h } else { b.height - r.y };
    let (gx, gy) = match geometry {
        Some(g) => (g.x, g.y),
        None => (0, 0),
    };
    let mut sx = r.x;
    let mut sy = r.y;
    if gx > 0 && w > gx {
        w = w - gx;
        sx = r.x + gx;
    }
    if gy > 0 && h > gy {
        h = h - gy;
        sy = r.y + gy;
    }
    Some((r.x, r.y, w, h, sx, sy))
}

/// The error that the buffer's layout gives, if any.
fn check_buffer(pool_len: usize, b: BufferInfo) -> (r: Option<ShmError>)
    ensures
        r == buffer_error(pool_len as int, b),
{
    if pool_len > i32::MAX as usize {
        return Some(ShmError::InvalidFd);
    }
    if b.offset < 0 || b.height <= 0 || b.width <= 0 || (b.stride as i64) < 4 * (b.width as i64) {
        return Some(ShmError::InvalidStride);
    }
    proof {
        assert(0 <= b.stride * b.height <= 0x7fff_ffff * 0x7fff_ffff) by (nonlinear_arith)
            requires 0 <= b.stride <= 0x7fff_ffff, 0 <= b.height <= 0x7fff_ffff;
    }
    let product: i64 = b.stride as i64 * b.height as i64;
    if product > i32::MAX as i64 || b.offset as i64 + product > pool_len as i64 {
        return Some(ShmError::InvalidStride);
    }
    None
}

impl<B> SurfaceData<B> {
    /// The copies that a commit's damage makes, from a client buffer laid out
    /// as `info` in a pool of `pool_len` bytes into the window's shared
    /// framebuffer, one line at a time; or the protocol error to post, where
    /// the layout or one of the rectangles is refused, and then nothing is
    /// copied or sent.
    pub fn update_buffer(&self, pool_len: usize, info: BufferInfo, damage: &Vec<Damage>, geometry: Option<Region>)
        -> (r: Result<Vec<LineCopy>, ShmError>)
        ensures
            r matches Ok(v) ==> damage_result(pool_len as int, info, damage@, self.buffer_scale, geometry)
                == Ok::<Seq<LineCopy>, ShmError>(v@),
            r matches Err(e) ==> damage_result(pool_len as int, info, damage@, self.buffer_scale, geometry)
                == Err::<Seq<LineCopy>, ShmError>(e),
            r matches Ok(v) ==> all_in_bounds(pool_len as int, info, v@),
    {
        proof {
            lemma_damage_in_bounds(pool_len as int, info, damage@, self.buffer_scale, geometry);
        }
        match check_buffer(pool_len, info) {
            Some(e) => { return Err(e); },
            None => {},
        }
        let scale = self.buffer_scale;
        let mut out: Vec<LineCopy> = Vec::new();
        let mut j: usize = 0;
        while j < damage.len()
            invariant
                j <= damage.len(),
                buffer_ok(pool_len as int, info),
                pool_len <= i32::MAX,
                scale == self.buffer_scale,
                planned(info, damage@.take(j as int), scale, geometry) == Some(out@),
            decreases damage.len() - j,
        {
            assert(damage@.take(j + 1).drop_last() =~= damage@.take(j as int));
            assert(damage@.take(j + 1).last() == damage@[j as int]);
            let c = match clip_exec(info, damage[j], scale, geometry) {
                None => {
                    proof {
                        assert(planned(info, damage@.take(j + 1), scale, geometry) is None);
                        lemma_planned_prefix(info, damage@, scale, geometry, j + 1);
                    }
                    return Err(ShmError::InvalidStride);
                },
                Some(c) => c,
            };
            let ghost gc = clip(info, damage@[j as int], scale, geometry)->Some_0;
            proof {
                lemma_clip_in_bounds(info, damage@[j as int], scale, geometry);
            }
            let (x, y, w, h, sx, sy) = c;
            let ghost prefix = out@;
            let mut i: i32 = 0;
            while i < h
                invariant
                    0 <= i <= h,
                    buffer_ok(pool_len as int, info),
                    pool_len <= i32::MAX,
                    clip_in_bounds(info, gc),
                    gc.x == x && gc.y == y && gc.w == w && gc.h == h && gc.sx == sx && gc.sy == sy,
                    out@ == prefix + lines(info, gc).take(i as int),
                decreases h - i,
            {
                proof {
                    lemma_line_in_bounds(pool_len as int, info, gc, i as int);
                }
                let src: i64 = info.offset as i64 + 4 * sx as i64 + (sy as i64 + i as i64) * info.stride as i64;
                let dst: i64 = 4 * (x as i64 + (y as i64 + i as i64) * info.width as i64);
                let copy = LineCopy {
                    src: src as usize,
                    dst: dst as usize,
                    len: (4 * w) as usize,
                    image: Rectangle { x: x as u32, y: y as u32, width: w as u32, height: h as u32 },
                };
                out.push(copy);
                assert(lines(info, gc).take(i + 1) =~= lines(info, gc).take(i as int).push(line(info, gc, i as int)));
                i += 1;
            }
            assert(lines(info, gc).take(h as int) =~= lines(info, gc));
            j += 1;
        }
        assert(damage@.take(j as int) =~= damage@);
        Ok(out)
    }
}

/// The title of `window` as `SetTitle` carries it: its first `TITLE_LEN`
/// bytes, padded with zeros to `TITLE_LEN`.
pub fn title_message(window: u32, title: &Vec<u8>) -> (r: Outbound)
    ensures
        r matches Outbound::SetTitle { window: w, title: t } && w == window && t@ == padded_title(title@),
{
    let mut t: Vec<u8> = Vec::new();
    let mut i: usize = 0;
    while i < TITLE_LEN
        invariant
            i <= TITLE_LEN,
            t@.len() == i,
            forall|k: int| 0 <= k < i ==> #[trigger] t@[k] == (if k < title@.len() { title@[k] } else { 0u8 }),
        decreases TITLE_LEN - i,
    {
        if i < title.len() {
            t.push(title[i]);
        } else {
            t.push(0);
        }
        i += 1;
    }
    assert(t@ =~= padded_title(title@));
    Outbound::SetTitle { window, title: t }
}

/// A title cut to `TITLE_LEN` bytes and padded with zeros to that length.
pub open spec fn padded_title(title: Seq<u8>) -> Seq<u8> {
    Seq::new(TITLE_LEN as nat, |i: int| if i < title.len() { title[i] } else { 0u8 })
}

/// The `Configure` that tells the daemon of a size the client acknowledged:
/// at the origin, at least one pixel wide and high (one by one where the
/// acknowledged configure gave no size).
pub fn ack_configure_message(window: u32, size: Option<(i32, i32)>) -> (r: Outbound)
    ensures
        r == ack_configure_spec(window, size),
{
    let (w, h) = match size {
        Some((w, h)) => (w, h),
        None => (1, 1),
    };
    let rectangle = Rectangle { x: 0, y: 0, width: at_least_one(w), height: at_least_one(h) };
    Outbound::Configure { window, configure: Configure { rectangle, override_redirect: 0 } }
}

pub open spec fn ack_configure_spec(window: u32, size: Option<(i32, i32)>) -> Outbound {
    let (w, h) = match size {
        Some((w, h)) => (w, h),
        None => (1i32, 1i32),
    };
    let rectangle = Rectangle { x: 0, y: 0, width: at_least_one_spec(w), height: at_least_one_spec(h) };
    Outbound::Configure { window, configure: Configure { rectangle, override_redirect: 0 } }
}

/// Size of the window created for a surface first seen in a commit.
pub const COMMIT_WINDOW_SIZE: u32 = 256;

/// The `Create` for a window made for a surface first seen in a commit.
pub fn commit_create_message(window: u32) -> (r: Outbound)
    ensures
        r == (Outbound::Create {
            window,
            rectangle: Rectangle { x: 0, y: 0, width: COMMIT_WINDOW_SIZE, height: COMMIT_WINDOW_SIZE },
            parent: None,
            override_redirect: 0,
        }),
{
    Outbound::Create {
        window,
        rectangle: Rectangle { x: 0, y: 0, width: COMMIT_WINDOW_SIZE, height: COMMIT_WINDOW_SIZE },
        parent: None,
        override_redirect: 0,
    }
}

/// A client buffer whose `stride * height` does not fit a signed 32-bit
/// integer gives exactly one `InvalidStride` error and no line at all.
pub proof fn lemma_stride_overflow(
    pool_len: int,
    b: BufferInfo,
    damage: Seq<Damage>,
    scale: i32,
    geometry: Option<Region>,
)
    requires
        pool_len <= i32::MAX,
        b.stride * b.height > i32::MAX,
    ensures
        damage_result(pool_len, b, damage, scale, geometry) == Err::<Seq<LineCopy>, ShmError>(ShmError::InvalidStride),
{
}

/// The lines of a commit lie inside the client's pool and inside the shared
/// framebuffer of `width * height` pixels, and each image lies inside the
/// window's size.
pub open spec fn line_in_bounds(pool_len: int, b: BufferInfo, l: LineCopy) -> bool {
    &&& l.src + l.len <= pool_len
    &&& l.dst + l.len <= BYTES_PER_PIXEL * b.width * b.height
    &&& l.image.x + l.image.width <= b.width
    &&& l.image.y + l.image.height <= b.height
}

pub open spec fn all_in_bounds(pool_len: int, b: BufferInfo, p: Seq<LineCopy>) -> bool {
    forall|k: int| 0 <= k < p.len() ==> line_in_bounds(pool_len, b, #[trigger] p[k])
}

/// Where a clipped rectangle lies.
pub open spec fn clip_in_bounds(b: BufferInfo, c: Clip) -> bool {
    &&& 0 <= c.w && 0 <= c.h
    &&& 0 <= c.x && c.x + c.w <= b.width
    &&& 0 <= c.sx && c.sx + c.w <= b.width
    &&& 0 <= c.y && c.y + c.h <= b.height
    &&& 0 <= c.sy && c.sy + c.h <= b.height
}

proof fn lemma_clip_in_bounds(b: BufferInfo, d: Damage, scale: i32, geometry: Option<Region>)
    requires
        b.width > 0,
        b.height > 0,
        clip(b, d, scale, geometry) is Some,
    ensures
        clip_in_bounds(b, clip(b, d, scale, geometry)->Some_0),
{
}

proof fn lemma_line_in_bounds(pool_len: int, b: BufferInfo, c: Clip, i: int)
    requires
        buffer_ok(pool_len, b),
        clip_in_bounds(b, c),
        0 <= i < c.h,
    ensures
        line_in_bounds(pool_len, b, line(b, c, i)),
        0 <= b.offset + BYTES_PER_PIXEL * c.sx + (c.sy + i) * b.stride,
        b.offset + BYTES_PER_PIXEL * c.sx + (c.sy + i) * b.stride + BYTES_PER_PIXEL * c.w <= pool_len,
        0 <= BYTES_PER_PIXEL * (c.x + (c.y + i) * b.width),
        BYTES_PER_PIXEL * (c.x + (c.y + i) * b.width) + BYTES_PER_PIXEL * c.w
            <= BYTES_PER_PIXEL * b.width * b.height,
        0 <= (c.y + i) * b.width <= b.width * b.height,
        0 <= (c.sy + i) * b.stride <= b.stride * b.height,
        BYTES_PER_PIXEL * b.width * b.height <= i32::MAX,
{
    assert(BYTES_PER_PIXEL * b.width * b.height <= b.stride * b.height) by (nonlinear_arith)
        requires b.stride >= BYTES_PER_PIXEL * b.width, b.height >= 0;
    let row = c.sy + i;
    let drow = c.y + i;
    assert(0 <= row * b.stride <= (b.height - 1) * b.stride) by (nonlinear_arith)
        requires 0 <= row <= b.height - 1, b.stride >= 0;
    assert((b.height - 1) * b.stride + b.stride == b.stride * b.height) by (nonlinear_arith);
    assert(0 <= drow * b.width <= (b.height - 1) * b.width) by (nonlinear_arith)
        requires 0 <= drow <= b.height - 1, b.width >= 0;
    assert((b.height - 1) * b.width + b.width == b.width * b.height) by (nonlinear_arith);
    assert(BYTES_PER_PIXEL * b.width * b.height == BYTES_PER_PIXEL * (b.width * b.height)) by (nonlinear_arith);
}

/// A prefix of the damage that is refused makes the whole damage refused.
proof fn lemma_planned_prefix(b: BufferInfo, damage: Seq<Damage>, scale: i32, geometry: Option<Region>, j: int)
    requires
        0 <= j <= damage.len(),
        planned(b, damage.take(j), scale, geometry) is None,
    ensures
        planned(b, damage, scale, geometry) is None,
    decreases damage.len() - j,
{
    if j < damage.len() {
        assert(damage.take(j + 1).drop_last() =~= damage.take(j));
        lemma_planned_prefix(b, damage, scale, geometry, j + 1);
    } else {
        assert(damage.take(j) =~= damage);
    }
}

/// No line of a commit is copied from outside the client's pool or into
/// the shared framebuffer outside its `width * height * 4` bytes, and every
/// image sent lies inside the window.
pub proof fn lemma_damage_in_bounds(
    pool_len: int,
    b: BufferInfo,
    damage: Seq<Damage>,
    scale: i32,
    geometry: Option<Region>,
)
    ensures
        damage_result(pool_len, b, damage, scale, geometry) matches Ok(p) ==> all_in_bounds(pool_len, b, p),
    decreases damage.len(),
{
    if buffer_error(pool_len, b) is None && damage.len() > 0 {
        lemma_damage_in_bounds(pool_len, b, damage.drop_last(), scale, geometry);
        match planned(b, damage, scale, geometry) {
            None => {},
            Some(p) => {
                let q = planned(b, damage.drop_last(), scale, geometry)->Some_0;
                let c = clip(b, damage.last(), scale, geometry)->Some_0;
                assert(damage_result(pool_len, b, damage.drop_last(), scale, geometry) == Ok::<Seq<LineCopy>, ShmError>(q));
                lemma_clip_in_bounds(b, damage.last(), scale, geometry);
                assert forall|k: int| 0 <= k < p.len() implies line_in_bounds(pool_len, b, #[trigger] p[k]) by {
                    if k >= q.len() {
                        lemma_line_in_bounds(pool_len, b, c, k - q.len());
                    } else {
                        assert(p[k] == q[k]);
                        assert(all_in_bounds(pool_len, b, q));
                    }
                }
            },
        }
    }
}

} // verus!
