//! Sprites: a grid of packed 4-bit-per-channel pixels with an optional
//! one-byte-per-pixel mask, the binary sprite format they are stored in,
//! and their integer upscaling.
use vstd::prelude::*;
use vstd::slice::slice_to_vec;
use vstd::arithmetic::div_mod::{lemma_fundamental_div_mod, lemma_fundamental_div_mod_converse};
use crate::renderer::{expand, RenderContext, RenderError, Renderable, Resizable, Scalable};

verus! {

/// Bytes before the mask and pixel data in the sprite format.
pub const HEADER_LEN: usize = 10;

/// The header's leading bytes, `SPRT`.
pub open spec fn sprite_magic() -> Seq<u8> {
    seq![0x53u8, 0x50u8, 0x52u8, 0x54u8]
}

/// Little-endian `u16` values from consecutive byte pairs; a trailing odd
/// byte is not part of any value.
pub open spec fn le_pixels(bytes: Seq<u8>) -> Seq<u16> {
    Seq::new(bytes.len() / 2, |i: int| (bytes[2 * i] + 256 * bytes[2 * i + 1]) as u16)
}

/// Each value as two bytes, low byte first.
pub open spec fn le_bytes(pixels: Seq<u16>) -> Seq<u8> {
    Seq::new(
        2 * pixels.len(),
        |k: int|
            if k % 2 == 0 {
                (pixels[k / 2] % 256) as u8
            } else {
                (pixels[k / 2] / 256) as u8
            },
    )
}

/// What a sprite file holds: width, height, pixels and mask, or `None` where
/// the header is short or malformed or the mask is cut off.
pub open spec fn parse_sprite(data: Seq<u8>) -> Option<(u16, u16, Seq<u16>, Option<Seq<u8>>)> {
    if data.len() < HEADER_LEN || data.subrange(0, 4) != sprite_magic() {
        None
    } else {
        let n = data[4] * data[5];
        if data[8] == 1 {
            if data.len() < HEADER_LEN + n {
                None
            } else {
                Some(
                    (
                        data[4] as u16,
                        data[5] as u16,
                        le_pixels(data.subrange(HEADER_LEN + n, data.len() as int)),
                        Some(data.subrange(HEADER_LEN as int, HEADER_LEN + n)),
                    ),
                )
            }
        } else {
            Some(
                (
                    data[4] as u16,
                    data[5] as u16,
                    le_pixels(data.subrange(HEADER_LEN as int, data.len() as int)),
                    None,
                ),
            )
        }
    }
}

/// The sprite file for a width and height below 256, pixels and mask:
/// four channels, pixel type zero, reserved byte zero.
pub open spec fn encode_sprite(width: u16, height: u16, pixels: Seq<u16>, mask: Option<Seq<u8>>) -> Seq<
    u8,
> {
    let has_mask: u8 = if mask is Some {
        1
    } else {
        0
    };
    let body = match mask {
        Some(m) => m,
        None => Seq::empty(),
    };
    sprite_magic() + seq![width as u8, height as u8, 4u8, 0u8, has_mask, 0u8] + body + le_bytes(
        pixels,
    )
}

/// The number of pixels of `n` that lie in complete rows of `rw` pixels.
pub open spec fn complete_len(n: int, rw: int) -> int {
    if rw <= 0 {
        0
    } else {
        n - n % rw
    }
}

/// The number of complete rows of `rw` pixels in `n` pixels.
pub open spec fn full_rows(n: int, rw: int) -> int {
    if rw <= 0 {
        0
    } else {
        n / rw
    }
}

/// The RGBA8 buffer of a grid `rw` by `rh`: each pixel of the complete rows
/// expanded, the rest zero; an error where the rows overflow the grid or the
/// buffer's size is past `usize`.
pub open spec fn decode_grid(pixels: Seq<u16>, rw: int, rh: int) -> Result<Seq<u8>, RenderError> {
    let n = complete_len(pixels.len() as int, rw);
    if rw * rh * 4 > usize::MAX {
        Err(RenderError::InvalidScale)
    } else if n > rw * rh {
        Err(RenderError::PixelOutOfBounds((rw * rh) as usize))
    } else {
        Ok(
            Seq::new(
                (rw * rh * 4) as nat,
                |k: int|
                    if k / 4 < n {
                        expand(pixels[k / 4])[k % 4]
                    } else {
                        0u8
                    },
            ),
        )
    }
}

/// The pixel at column `x` and row `y` of a row-major grid `w` pixels wide.
pub open spec fn grid_at(grid: Seq<u16>, w: int, x: int, y: int) -> u16 {
    grid[y * w + x]
}

/// The length of the grid that replicating the complete rows of `n` pixels,
/// `rw` a row, `xs` times across and `ys` times down gives.
pub open spec fn replicated_len(n: int, rw: int, xs: int, ys: int) -> int {
    full_rows(n, rw) * ys * (rw * xs)
}

/// `out` replicates each pixel of the complete rows of `pixels` (`rw` a row)
/// into an `xs` by `ys` block: the pixel at `(x, y)` is the source pixel at
/// `(x / xs, y / ys)`.
pub open spec fn replicated(pixels: Seq<u16>, rw: int, xs: int, ys: int, out: Seq<u16>) -> bool {
    &&& out.len() == replicated_len(pixels.len() as int, rw, xs, ys)
    &&& forall|x: int, y: int|
        0 <= x < rw * xs && 0 <= y < full_rows(pixels.len() as int, rw) * ys ==> #[trigger] grid_at(
            out,
            rw * xs,
            x,
            y,
        ) == grid_at(pixels, rw, x / xs, y / ys)
}

/// The source pixel that position `i` of a replicated grid copies.
pub open spec fn replicated_at(pixels: Seq<u16>, rw: int, xs: int, ys: int, i: int) -> u16 {
    pixels[((i / (rw * xs)) / ys) * rw + (i % (rw * xs)) / xs]
}

/// `x / d` lies below `m` where `x` lies below `m * d`.
proof fn lemma_div_below(x: int, d: int, m: int)
    requires
        0 <= x < m * d,
        d > 0,
    ensures
        0 <= x / d < m,
{
    lemma_fundamental_div_mod(x, d);
    let q = x / d;
    let r = x % d;
    assert(0 <= q < m) by (nonlinear_arith)
        requires
            x == d * q + r,
            0 <= r < d,
            0 <= x < m * d,
            d > 0,
    ;
}

/// Replicates each pixel of the complete rows of `pixels` into an `xs` by
/// `ys` block.
fn replicate(pixels: &Vec<u16>, rw: usize, xs: usize, ys: usize) -> (r: Vec<u16>)
    requires
        replicated_len(pixels@.len() as int, rw as int, xs as int, ys as int) <= usize::MAX,
    ensures
        replicated(pixels@, rw as int, xs as int, ys as int, r@),
{
    let ghost n = pixels@.len() as int;
    if rw == 0 || xs == 0 || ys == 0 {
        let ghost rows = full_rows(n, rw as int);
        assert(rw * xs == 0 || rows * ys == 0) by (nonlinear_arith)
            requires
                rw == 0 || xs == 0 || ys == 0,
                rw == 0 ==> rows == 0,
        ;
        assert(rows * ys * (rw * xs) == 0) by (nonlinear_arith)
            requires
                rw * xs == 0 || rows * ys == 0,
        ;
        return Vec::new();
    }
    let rows = pixels.len() / rw;
    if rows == 0 {
        assert(rows * ys * (rw * xs) == 0) by (nonlinear_arith)
            requires
                rows == 0,
        ;
        return Vec::new();
    }
    let ghost a = rows * ys;
    let ghost b = rw * xs;
    assert(a >= 1 && b >= 1) by (nonlinear_arith)
        requires
            a == rows * ys,
            b == rw * xs,
            rows > 0,
            rw > 0,
            xs > 0,
            ys > 0,
    ;
    assert(a <= a * b && b <= a * b) by (nonlinear_arith)
        requires
            a >= 1,
            b >= 1,
    ;
    assert(rows == full_rows(n, rw as int));
    assert(a * b <= usize::MAX);
    assert(rows * rw <= n) by (nonlinear_arith)
        requires
            rows == n / (rw as int),
            rw > 0,
            n >= 0,
    ;
    let ow = rw * xs;
    let oh = rows * ys;
    let total = oh * ow;
    let mut out: Vec<u16> = Vec::new();
    let mut i: usize = 0;
    while i < total
        invariant
            0 <= i <= total,
            total == oh * ow,
            ow == rw * xs,
            oh == rows * ys,
            rows == full_rows(n, rw as int),
            rows * rw <= n,
            n == pixels@.len(),
            n <= usize::MAX,
            rw > 0,
            xs > 0,
            ys > 0,
            out@.len() == i,
            forall|j: int|
                0 <= j < i ==> #[trigger] out@[j] == replicated_at(
                    pixels@,
                    rw as int,
                    xs as int,
                    ys as int,
                    j,
                ),
        decreases total - i,
    {
        let q = i / ow;
        let c = i % ow;
        proof {
            lemma_div_below(i as int, ow as int, oh as int);
            lemma_div_below(q as int, ys as int, rows as int);
            lemma_div_below(c as int, xs as int, rw as int);
        }
        let sy = q / ys;
        let sx = c / xs;
        assert(sy * rw + sx < rows * rw) by (nonlinear_arith)
            requires
                0 <= sy < rows,
                0 <= sx < rw,
        ;
        out.push(pixels[sy * rw + sx]);
        i = i + 1;
    }
    assert forall|x: int, y: int|
        0 <= x < rw * xs && 0 <= y < full_rows(n, rw as int) * ys implies #[trigger] grid_at(
        out@,
        rw * xs,
        x,
        y,
    ) == grid_at(pixels@, rw as int, x / xs as int, y / ys as int) by {
        let j = y * ow + x;
        assert(0 <= j < total) by (nonlinear_arith)
            requires
                0 <= x < ow,
                0 <= y < oh,
                j == y * ow + x,
                total == oh * ow,
        ;
        lemma_fundamental_div_mod_converse(j, ow as int, y, x);
    }
    out
}

/// Every source field of `a` and `b` agrees.
pub open spec fn same_sprite(a: Bitmap, b: Bitmap) -> bool {
    &&& a.spec_width() == b.spec_width()
    &&& a.spec_height() == b.spec_height()
    &&& a.spec_pixels() == b.spec_pixels()
    &&& a.spec_bitmask() == b.spec_bitmask()
    &&& a.spec_render_width() == b.spec_render_width()
    &&& a.spec_render_height() == b.spec_render_height()
}

/// The outcome of replicating each pixel of `a` into an `xs` by `ys` block:
/// `InvalidScale`, with `a` unchanged, where the new size does not fit a
/// `u16` or the new grid does not fit in memory; else `after` holds the
/// replicated grid at `xs` times the render width and `ys` times the render
/// height, and the source size and mask of `a`.
pub open spec fn replicate_outcome(a: Bitmap, xs: int, ys: int, after: Bitmap, r: Result<(), RenderError>) -> bool {
    let rw = a.spec_render_width() as int;
    let rh = a.spec_render_height() as int;
    if rw * xs > u16::MAX || rh * ys > u16::MAX || replicated_len(a.spec_pixels().len() as int, rw, xs, ys)
        > usize::MAX {
        r == Err::<(), RenderError>(RenderError::InvalidScale) && same_sprite(a, after)
    } else {
        &&& r is Ok
        &&& after.spec_width() == a.spec_width()
        &&& after.spec_height() == a.spec_height()
        &&& after.spec_bitmask() == a.spec_bitmask()
        &&& after.spec_render_width() == rw * xs
        &&& after.spec_render_height() == rh * ys
        &&& replicated(a.spec_pixels(), rw, xs, ys, after.spec_pixels())
    }
}

pub struct Bitmap {
    width: u16,
    height: u16,
    pixels: Vec<u16>,
    bitmask: Option<Vec<u8>>,
    render_width: u16,
    render_height: u16,
}

impl Bitmap {
    /// The width of the source grid, before any scaling.
    pub closed spec fn spec_width(&self) -> u16 {
        self.width
    }

    /// The height of the source grid, before any scaling.
    pub closed spec fn spec_height(&self) -> u16 {
        self.height
    }

    /// The current pixel grid, row-major, `spec_render_width` pixels a row.
    pub closed spec fn spec_pixels(&self) -> Seq<u16> {
        self.pixels@
    }

    pub closed spec fn spec_bitmask(&self) -> Option<Seq<u8>> {
        match self.bitmask {
            Some(m) => Some(m@),
            None => None,
        }
    }

    /// The width of the current, possibly scaled, grid.
    pub closed spec fn spec_render_width(&self) -> u16 {
        self.render_width
    }

    /// The height of the current, possibly scaled, grid.
    pub closed spec fn spec_render_height(&self) -> u16 {
        self.render_height
    }

    /// The current pixel grid.
    pub fn pixel_data(&self) -> (r: &[u16])
        ensures
            r@ == self.spec_pixels(),
    {
        self.pixels.as_slice()
    }

    /// The mask, if the sprite has one.
    pub fn bitmask(&self) -> (r: Option<&Vec<u8>>)
        ensures
            match r {
                Some(m) => self.spec_bitmask() == Some(m@),
                None => self.spec_bitmask() is None,
            },
    {
        self.bitmask.as_ref()
    }

    /// A fully transparent sprite of the given size, without mask.
    pub fn new(width: u16, height: u16) -> (r: Self)
        ensures
            r.spec_width() == width,
            r.spec_height() == height,
            r.spec_pixels() == Seq::new((width * height) as nat, |i: int| 0u16),
            r.spec_bitmask() is None,
            r.spec_render_width() == width,
            r.spec_render_height() == height,
    {
        assert((width as int) * (height as int) <= 0xffff * 0xffff) by (nonlinear_arith)
            requires
                width <= 0xffff,
                height <= 0xffff,
        ;
        let pixels: Vec<u16> = vec![0u16; width as usize * height as usize];
        assert(pixels@ =~= Seq::new((width * height) as nat, |i: int| 0u16));
        Self {
            width,
            height,
            pixels,
            bitmask: None,
            render_width: width,
            render_height: height,
        }
    }

    pub fn with_bitmask(&mut self, pixels: Vec<u8>) -> (r: &Self)
        ensures
            final(self).spec_bitmask() == Some(pixels@),
            final(self).spec_width() == old(self).spec_width(),
            final(self).spec_height() == old(self).spec_height(),
            final(self).spec_pixels() == old(self).spec_pixels(),
            final(self).spec_render_width() == old(self).spec_render_width(),
            final(self).spec_render_height() == old(self).spec_render_height(),
            *r == *final(self),
    {
        self.bitmask = Some(pixels);
        self
    }

    /// Reads a sprite file. Values are read up to the end of the data; the
    /// channel count and pixel type are not checked.
    pub fn load_res(data: &[u8]) -> (r: Result<Bitmap, RenderError>)
        ensures
            r is Err <==> parse_sprite(data@) is None,
            r is Err ==> r == Err::<Bitmap, RenderError>(RenderError::ResourceLoadFailure),
            r matches Ok(b) ==> parse_sprite(data@) == Some(
                (b.spec_width(), b.spec_height(), b.spec_pixels(), b.spec_bitmask()),
            ) && b.spec_render_width() == b.spec_width() && b.spec_render_height()
                == b.spec_height(),
    {
        let len = data.len();
        if len < HEADER_LEN || data[0] != 0x53u8 || data[1] != 0x50u8 || data[2] != 0x52u8 || data[3]
            != 0x54u8 {
            proof {
                if len >= HEADER_LEN {
                    assert(data@.subrange(0, 4)[0] != sprite_magic()[0] || data@.subrange(0, 4)[1]
                        != sprite_magic()[1] || data@.subrange(0, 4)[2] != sprite_magic()[2]
                        || data@.subrange(0, 4)[3] != sprite_magic()[3]);
                }
            }
            return Err(RenderError::ResourceLoadFailure);
        }
        assert(data@.subrange(0, 4) =~= sprite_magic());
        let width = data[4];
        let height = data[5];
        let has_bitmask = data[8];
        assert((width as int) * (height as int) <= 255 * 255) by (nonlinear_arith)
            requires
                width <= 255,
                height <= 255,
        ;
        let n: usize = (width as usize) * (height as usize);
        let mut start: usize = HEADER_LEN;
        let bitmask = if has_bitmask == 1 {
            if len - HEADER_LEN < n {
                return Err(RenderError::ResourceLoadFailure);
            }
            start = HEADER_LEN + n;
            Some(slice_to_vec(&data[HEADER_LEN..HEADER_LEN + n]))
        } else {
            None
        };
        let pixels = read_le_pixels(data, start);
        let r = Bitmap {
            width: width as u16,
            height: height as u16,
            pixels,
            bitmask,
            render_width: width as u16,
            render_height: height as u16,
        };
        assert(r.spec_bitmask() == parse_sprite(data@).unwrap().3);
        Ok(r)
    }

    /// Writes the sprite file for this sprite's source size, pixels and mask.
    pub fn to_bytes(&self) -> (r: Vec<u8>)
        requires
            self.spec_width() <= 255,
            self.spec_height() <= 255,
            self.spec_pixels().len() * 2 + HEADER_LEN + match self.spec_bitmask() {
                Some(m) => m.len() as int,
                None => 0,
            } <= usize::MAX,
        ensures
            r@ == encode_sprite(
                self.spec_width(),
                self.spec_height(),
                self.spec_pixels(),
                self.spec_bitmask(),
            ),
    {
        let mut out: Vec<u8> = Vec::new();
        out.push(0x53u8);
        out.push(0x50u8);
        out.push(0x52u8);
        out.push(0x54u8);
        out.push(self.width as u8);
        out.push(self.height as u8);
        out.push(4u8);
        out.push(0u8);
        match &self.bitmask {
            Some(_) => out.push(1u8),
            None => out.push(0u8),
        }
        out.push(0u8);
        match &self.bitmask {
            Some(m) => out.extend_from_slice(m.as_slice()),
            None => {},
        }
        let ghost head = out@;
        let mut i: usize = 0;
        while i < self.pixels.len()
            invariant
                0 <= i <= self.pixels@.len(),
                self.pixels@.len() * 2 + head.len() <= usize::MAX,
                out@ == head + le_bytes(self.pixels@.subrange(0, i as int)),
            decreases self.pixels@.len() - i,
        {
            let p = self.pixels[i];
            out.push((p % 256) as u8);
            out.push((p / 256) as u8);
            i = i + 1;
            assert(le_bytes(self.pixels@.subrange(0, i as int)) =~= le_bytes(
                self.pixels@.subrange(0, i - 1),
            ).push((p % 256) as u8).push((p / 256) as u8));
        }
        assert(self.pixels@.subrange(0, i as int) =~= self.pixels@);
        assert(out@ =~= encode_sprite(
            self.spec_width(),
            self.spec_height(),
            self.spec_pixels(),
            self.spec_bitmask(),
        ));
        out
    }
}

/// The little-endian `u16` values in `data` from byte `start` on.
fn read_le_pixels(data: &[u8], start: usize) -> (r: Vec<u16>)
    requires
        start <= data@.len(),
    ensures
        r@ == le_pixels(data@.subrange(start as int, data@.len() as int)),
{
    let ghost rest = data@.subrange(start as int, data@.len() as int);
    let mut out: Vec<u16> = Vec::new();
    let mut pos: usize = start;
    while data.len() - pos >= 2
        invariant
            start <= pos <= data@.len(),
            rest == data@.subrange(start as int, data@.len() as int),
            (pos - start) % 2 == 0,
            out@ == le_pixels(rest).subrange(0, (pos - start) / 2),
        decreases data@.len() - pos,
    {
        let v: u16 = data[pos] as u16 + 256 * (data[pos + 1] as u16);
        out.push(v);
        pos = pos + 2;
        assert(out@ =~= le_pixels(rest).subrange(0, (pos - start) / 2));
    }
    assert(out@ =~= le_pixels(rest));
    out
}

impl Bitmap {
    /// Replicates each pixel into an `xs` by `ys` block, as `replicate_outcome` states.
    fn replicate_by(&mut self, xs: usize, ys: usize) -> (r: Result<(), RenderError>)
        ensures
            replicate_outcome(*old(self), xs as int, ys as int, *final(self), r),
    {
        let rw = self.render_width as usize;
        let rh = self.render_height as usize;
        let new_w = match rw.checked_mul(xs) {
            Some(v) => v,
            None => return Err(RenderError::InvalidScale),
        };
        let new_h = match rh.checked_mul(ys) {
            Some(v) => v,
            None => return Err(RenderError::InvalidScale),
        };
        if new_w > 0xffff || new_h > 0xffff {
            return Err(RenderError::InvalidScale);
        }
        let rows = if rw == 0 {
            0
        } else {
            self.pixels.len() / rw
        };
        let ghost n = self.pixels@.len() as int;
        assert(rows == full_rows(n, rw as int));
        let total = if new_w == 0 {
            assert(rows * ys * (rw * xs) == 0) by (nonlinear_arith)
                requires
                    new_w == rw * xs,
                    new_w == 0,
            ;
            0
        } else {
            match rows.checked_mul(ys) {
            Some(a) => match a.checked_mul(new_w) {
                Some(t) => t,
                None => {
                    assert(rows * ys * (rw * xs) > usize::MAX) by (nonlinear_arith)
                        requires
                            a == rows * ys,
                            a * new_w > usize::MAX,
                            new_w == rw * xs,
                    ;
                    return Err(RenderError::InvalidScale);
                },
            },
            None => {
                assert(rows * ys * (rw * xs) > usize::MAX) by (nonlinear_arith)
                    requires
                        rows * ys > usize::MAX,
                        new_w == rw * xs,
                        new_w >= 1,
                ;
                return Err(RenderError::InvalidScale);
            },
            }
        };
        let pixels = replicate(&self.pixels, rw, xs, ys);
        self.pixels = pixels;
        self.render_width = new_w as u16;
        self.render_height = new_h as u16;
        Ok(())
    }
}

impl Renderable for Bitmap {
    open spec fn decoded(&self) -> Result<Seq<u8>, RenderError> {
        decode_grid(self.spec_pixels(), self.spec_render_width() as int, self.spec_render_height() as int)
    }

    open spec fn view_width(&self) -> u16 {
        self.spec_width()
    }

    open spec fn view_height(&self) -> u16 {
        self.spec_height()
    }

    open spec fn view_render_width(&self) -> u16 {
        self.spec_render_width()
    }

    open spec fn view_render_height(&self) -> u16 {
        self.spec_render_height()
    }

    fn get_pixels(&self) -> (r: Result<Vec<u8>, RenderError>) {
        let rw = self.render_width as usize;
        let rh = self.render_height as usize;
        let size = match rw.checked_mul(rh) {
            Some(a) => match a.checked_mul(4) {
                Some(b) => b,
                None => return Err(RenderError::InvalidScale),
            },
            None => {
                assert(rw * rh * 4 > usize::MAX) by (nonlinear_arith)
                    requires
                        rw * rh > usize::MAX,
                ;
                return Err(RenderError::InvalidScale);
            },
        };
        let len = self.pixels.len();
        let n = if rw == 0 {
            0
        } else {
            proof {
                lemma_fundamental_div_mod(len as int, rw as int);
                assert((len as int) / (rw as int) * (rw as int) >= 0) by (nonlinear_arith)
                    requires
                        len >= 0,
                        rw > 0,
                ;
            }
            len - len % rw
        };
        let ghost area = rw * rh;
        let mut buf: Vec<u8> = vec![0u8; size];
        let res;
        {
            let mut ctx = RenderContext::new(buf.as_mut_slice(), rw, rh);
            res = ctx.fill_slice(&self.pixels.as_slice()[0..n], 0);
        }
        match res {
            Ok(()) => {
                assert(n == 0 || n - 1 < area);
                assert(buf@ =~= decode_grid(self.pixels@, rw as int, rh as int)->Ok_0);
                Ok(buf)
            },
            Err(e) => {
                assert(e == RenderError::PixelOutOfBounds(area as usize));
                Err(e)
            },
        }
    }

    fn get_width(&self) -> (r: u16) {
        self.width
    }

    fn get_height(&self) -> (r: u16) {
        self.height
    }

    fn get_render_width(&self) -> (r: u16) {
        self.render_width
    }

    fn get_render_height(&self) -> (r: u16) {
        self.render_height
    }
}

impl Scalable for Bitmap {
    /// Scaling by one changes nothing; scaling a non-empty size by zero
    /// would shrink it and is refused with `InvalidScale`; any other factor
    /// replicates each pixel into a `factor` by `factor` block.
    open spec fn scaled(&self, factor: usize, after: Self, r: Result<(), RenderError>) -> bool {
        if factor == 1 {
            r is Ok && same_sprite(*self, after)
        } else if factor == 0 && (self.spec_render_width() > 0 || self.spec_render_height() > 0) {
            r == Err::<(), RenderError>(RenderError::InvalidScale) && same_sprite(*self, after)
        } else {
            replicate_outcome(*self, factor as int, factor as int, after, r)
        }
    }

    fn with_scale(&mut self, scale: usize) -> (r: Result<(), RenderError>) {
        if scale == 1 {
            return Ok(());
        }
        if scale == 0 && (self.render_width > 0 || self.render_height > 0) {
            return Err(RenderError::InvalidScale);
        }
        self.replicate_by(scale, scale)
    }
}

impl Resizable for Bitmap {
    /// A target below the render size, or one whose factor does not fit a
    /// `usize`, is refused with `InvalidScale`; otherwise each pixel is replicated `x - render_width + 1` times across
    /// and `y - render_height + 1` times down.
    open spec fn resized(&self, x: usize, y: usize, after: Self, r: Result<(), RenderError>) -> bool {
        if x < self.spec_render_width() || y < self.spec_render_height() || x
            - self.spec_render_width() + 1 > usize::MAX || y - self.spec_render_height() + 1
            > usize::MAX {
            r == Err::<(), RenderError>(RenderError::InvalidScale) && same_sprite(*self, after)
        } else {
            replicate_outcome(
                *self,
                x - self.spec_render_width() + 1,
                y - self.spec_render_height() + 1,
                after,
                r,
            )
        }
    }

    fn with_size(&mut self, x: usize, y: usize) -> (r: Result<(), RenderError>) {
        let rw = self.render_width as usize;
        let rh = self.render_height as usize;
        if x < rw || y < rh {
            return Err(RenderError::InvalidScale);
        }
        if x - rw == usize::MAX || y - rh == usize::MAX {
            return Err(RenderError::InvalidScale);
        }
        self.replicate_by(x - rw + 1, y - rh + 1)
    }
}

/// A sprite whose source size fits the format's one-byte fields, and whose
/// mask, if any, has one byte per pixel, reads back from its file with the
/// same width, height, pixels and mask.
pub proof fn lemma_round_trip(width: u16, height: u16, pixels: Seq<u16>, mask: Option<Seq<u8>>)
    requires
        width <= 255,
        height <= 255,
        mask matches Some(m) ==> m.len() == width * height,
    ensures
        parse_sprite(encode_sprite(width, height, pixels, mask)) == Some((width, height, pixels, mask)),
{
    let data = encode_sprite(width, height, pixels, mask);
    let body = match mask {
        Some(m) => m,
        None => Seq::<u8>::empty(),
    };
    let start = HEADER_LEN + body.len();
    assert(data.subrange(0, 4) =~= sprite_magic());
    assert(data.subrange(start as int, data.len() as int) =~= le_bytes(pixels));
    assert(le_pixels(le_bytes(pixels)) =~= pixels);
    if mask is Some {
        assert(data.subrange(HEADER_LEN as int, start as int) =~= body);
    }
}

} // verus!
