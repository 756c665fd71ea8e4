//! The render surface: a borrowed RGBA8 byte buffer with bounds-checked
//! pixel, slice and row writes, and the addressing of positions in it.
use vstd::prelude::*;

verus! {

/// Bytes per RGBA8 pixel.
pub const PIXEL_BYTES_AMT: usize = 4;

#[derive(Debug, Clone, Copy, PartialEq, Eq, Structural)]
pub enum RenderError {
    /// A write touched a pixel (given by its index) outside the buffer.
    PixelOutOfBounds(usize),
    /// A resource could not be read: its bytes are short or malformed.
    ResourceLoadFailure,
    /// A scale or resize target is smaller than the current size, or too large.
    InvalidScale,
}

/// The four bytes that `draw_pixel` writes for `color`: red is the top byte,
/// alpha the bottom one.
pub open spec fn color_bytes(color: u32) -> Seq<u8> {
    seq![
        (color >> 24u32) as u8,
        ((color >> 16u32) & 0xffu32) as u8,
        ((color >> 8u32) & 0xffu32) as u8,
        (color & 0xffu32) as u8,
    ]
}

/// Nibble `k` of a packed pixel, `k == 0` being the top (red) nibble.
pub open spec fn nibble(packed: u16, k: int) -> u16 {
    if k == 0 {
        (packed >> 12u16) & 0xfu16
    } else if k == 1 {
        (packed >> 8u16) & 0xfu16
    } else if k == 2 {
        (packed >> 4u16) & 0xfu16
    } else {
        packed & 0xfu16
    }
}

/// The RGBA8 bytes of a packed 4-bit-per-channel pixel: each nibble times 17.
pub open spec fn expand(packed: u16) -> Seq<u8> {
    Seq::new(4, |k: int| (nibble(packed, k) * 17) as u8)
}

/// Whether `n` bytes starting at byte `start` lie inside a buffer of `len` bytes.
pub open spec fn fits(len: int, start: int, n: int) -> bool {
    0 <= start && start + n <= len
}

/// Whether pixel `index` lies wholly inside a buffer of `len` bytes.
pub open spec fn pixel_fits(len: int, index: int) -> bool {
    fits(len, index * 4, 4)
}

/// `buf` with the bytes from `start` on replaced by `bytes`.
pub open spec fn put_bytes(buf: Seq<u8>, start: int, bytes: Seq<u8>) -> Seq<u8> {
    Seq::new(buf.len(), |k: int| if start <= k < start + bytes.len() { bytes[k - start] } else { buf[k] })
}

/// `buf` after painting `color` at each pixel `offset + i` whose mask byte
/// `mask[i]` is exactly one and which lies inside the buffer.
pub open spec fn mask_painted(buf: Seq<u8>, mask: Seq<u8>, offset: int, color: u32) -> Seq<u8> {
    Seq::new(
        buf.len(),
        |k: int|
            {
                let p = k / 4;
                if offset <= p < offset + mask.len() && mask[p - offset] == 1 && pixel_fits(
                    buf.len() as int,
                    p,
                ) {
                    color_bytes(color)[k % 4]
                } else {
                    buf[k]
                }
            },
    )
}

/// The outcome of drawing `mask` from pixel `offset` on, looking at the mask
/// from entry `i`: the first marked pixel outside the buffer, if any.
pub open spec fn mask_error(len: int, mask: Seq<u8>, offset: int, i: int) -> Result<(), RenderError>
    decreases mask.len() - i,
{
    if i < 0 || i >= mask.len() {
        Ok(())
    } else if mask[i] == 1 && !pixel_fits(len, offset + i) {
        Err(RenderError::PixelOutOfBounds((offset + i) as usize))
    } else {
        mask_error(len, mask, offset, i + 1)
    }
}

/// `buf` after writing the expansion of each packed pixel `pixels[i]` at pixel
/// `offset + i`, where that pixel lies inside the buffer.
pub open spec fn filled(buf: Seq<u8>, pixels: Seq<u16>, offset: int) -> Seq<u8> {
    Seq::new(
        buf.len(),
        |k: int|
            {
                let p = k / 4;
                if offset <= p < offset + pixels.len() && pixel_fits(buf.len() as int, p) {
                    expand(pixels[p - offset])[k % 4]
                } else {
                    buf[k]
                }
            },
    )
}

/// Number of complete rows of `row_width` RGBA8 pixels in `len` bytes.
pub open spec fn row_count(len: int, row_width: int) -> int {
    if row_width <= 0 {
        0
    } else {
        len / (row_width * 4)
    }
}

/// The saturated form of a pixel index, for errors on indices past `usize`.
pub open spec fn sat_index(p: int) -> usize {
    if p > usize::MAX {
        usize::MAX
    } else {
        p as usize
    }
}

/// Buffer and outcome after copying the first `rows` rows of `src` (rows of
/// `row_width` pixels), row `r` to pixel `offset + r * stride`; the first row
/// that does not fit stops the copy.
pub open spec fn blit_rows(
    buf: Seq<u8>,
    src: Seq<u8>,
    row_width: int,
    offset: int,
    stride: int,
    rows: nat,
) -> (Seq<u8>, Result<(), RenderError>)
    decreases rows,
{
    if rows == 0 {
        (buf, Ok(()))
    } else {
        let prev = blit_rows(buf, src, row_width, offset, stride, (rows - 1) as nat);
        if prev.1 is Err {
            prev
        } else {
            let dst = offset + (rows - 1) * stride;
            let row = src.subrange((rows - 1) * row_width * 4, rows * row_width * 4);
            if fits(buf.len() as int, dst * 4, row.len() as int) {
                (put_bytes(prev.0, dst * 4, row), Ok(()))
            } else {
                (prev.0, Err(RenderError::PixelOutOfBounds(sat_index(dst))))
            }
        }
    }
}

/// Buffer and outcome after drawing the first `rows` rows of a glyph mask
/// (rows of `l` entries), row `r` at pixel `offset + r * stride`; a row with a
/// marked pixel outside the buffer stops the drawing after that row.
pub open spec fn letter_rows(
    buf: Seq<u8>,
    letter: Seq<u8>,
    l: int,
    offset: int,
    stride: int,
    color: u32,
    rows: nat,
) -> (Seq<u8>, Result<(), RenderError>)
    decreases rows,
{
    if rows == 0 {
        (buf, Ok(()))
    } else {
        let prev = letter_rows(buf, letter, l, offset, stride, color, (rows - 1) as nat);
        if prev.1 is Err {
            prev
        } else {
            let dst = offset + (rows - 1) * stride;
            let row = letter.subrange((rows - 1) * l, rows * l);
            (mask_painted(prev.0, row, dst, color), mask_error(buf.len() as int, row, dst, 0))
        }
    }
}

/// A mask that draws without error yields exactly `Ok(())`.
pub proof fn lemma_mask_error_ok(len: int, mask: Seq<u8>, offset: int, i: int)
    ensures
        mask_error(len, mask, offset, i) is Ok ==> mask_error(len, mask, offset, i) == Ok::<
            (),
            RenderError,
        >(()),
    decreases mask.len() - i,
{
    if 0 <= i < mask.len() {
        lemma_mask_error_ok(len, mask, offset, i + 1);
    }
}

/// Once a row has failed, later rows change neither buffer nor outcome.
pub proof fn lemma_blit_rows_stop(
    buf: Seq<u8>,
    src: Seq<u8>,
    row_width: int,
    offset: int,
    stride: int,
    n: nat,
    m: nat,
)
    requires
        n <= m,
        blit_rows(buf, src, row_width, offset, stride, n).1 is Err,
    ensures
        blit_rows(buf, src, row_width, offset, stride, m) == blit_rows(
            buf,
            src,
            row_width,
            offset,
            stride,
            n,
        ),
    decreases m,
{
    if m > n {
        lemma_blit_rows_stop(buf, src, row_width, offset, stride, n, (m - 1) as nat);
    }
}

/// Once a row has failed, later rows change neither buffer nor outcome.
pub proof fn lemma_letter_rows_stop(
    buf: Seq<u8>,
    letter: Seq<u8>,
    l: int,
    offset: int,
    stride: int,
    color: u32,
    n: nat,
    m: nat,
)
    requires
        n <= m,
        letter_rows(buf, letter, l, offset, stride, color, n).1 is Err,
    ensures
        letter_rows(buf, letter, l, offset, stride, color, m) == letter_rows(
            buf,
            letter,
            l,
            offset,
            stride,
            color,
            n,
        ),
    decreases m,
{
    if m > n {
        lemma_letter_rows_stop(buf, letter, l, offset, stride, color, n, (m - 1) as nat);
    }
}

/// A pixel index in a buffer.
pub type Offset = usize;

/// A width and a height, in pixels.
pub type Size = (usize, usize);

/// Buffer and outcome of drawing the decoded buffer `pixels` (rows of
/// `row_width` pixels) at pixel `offset` of a surface that held `before`,
/// with rows of `width` pixels.
pub open spec fn blit_at(before: Seq<u8>, pixels: Seq<u8>, row_width: int, offset: int, width: int) -> (
    Seq<u8>,
    Result<(), RenderError>,
) {
    blit_rows(before, pixels, row_width, offset, width, row_count(pixels.len() as int, row_width) as nat)
}

#[derive(Debug)]
pub struct RenderContext<'a> {
    pub height: usize,
    pub width: usize,
    pub buffer: &'a mut [u8],
}

impl<'a> RenderContext<'a> {
    pub fn new(buffer: &'a mut [u8], width: usize, height: usize) -> (r: Self)
        ensures
            r.buffer@ == old(buffer)@,
            r.width == width,
            r.height == height,
            final(buffer)@ == final(r.buffer)@,
    {
        Self { buffer, width, height }
    }

    /// Writes `color` as four bytes, red first, at pixel `index`.
    pub fn draw_pixel(&mut self, index: usize, color: u32) -> (r: Result<(), RenderError>)
        ensures
            final(self).width == old(self).width,
            final(self).height == old(self).height,
            final(final(self).buffer)@ == final(old(self).buffer)@,
            pixel_fits(old(self).buffer@.len() as int, index as int) ==> r is Ok
                && final(self).buffer@ == put_bytes(old(self).buffer@, index * 4, color_bytes(color)),
            !pixel_fits(old(self).buffer@.len() as int, index as int) ==> r == Err::<(), RenderError>(
                RenderError::PixelOutOfBounds(index),
            ) && final(self).buffer@ == old(self).buffer@,
    {
        let len = self.buffer.len();
        let start = match index.checked_mul(PIXEL_BYTES_AMT) {
            Some(s) => s,
            None => return Err(RenderError::PixelOutOfBounds(index)),
        };
        if start > len || len - start < PIXEL_BYTES_AMT {
            return Err(RenderError::PixelOutOfBounds(index));
        }
        let ghost before = self.buffer@;
        self.buffer[start] = (color >> 24u32) as u8;
        self.buffer[start + 1] = ((color >> 16u32) & 0xffu32) as u8;
        self.buffer[start + 2] = ((color >> 8u32) & 0xffu32) as u8;
        self.buffer[start + 3] = (color & 0xffu32) as u8;
        assert(self.buffer@ =~= put_bytes(before, index * 4, color_bytes(color)));
        Ok(())
    }

    /// Writes the packed pixel `packed`, each nibble widened to a byte, at
    /// pixel `index`.
    pub fn fill_pixel(&mut self, index: usize, packed: u16) -> (r: Result<(), RenderError>)
        ensures
            final(self).width == old(self).width,
            final(self).height == old(self).height,
            final(final(self).buffer)@ == final(old(self).buffer)@,
            pixel_fits(old(self).buffer@.len() as int, index as int) ==> r is Ok
                && final(self).buffer@ == put_bytes(old(self).buffer@, index * 4, expand(packed)),
            !pixel_fits(old(self).buffer@.len() as int, index as int) ==> r == Err::<(), RenderError>(
                RenderError::PixelOutOfBounds(index),
            ) && final(self).buffer@ == old(self).buffer@,
    {
        let len = self.buffer.len();
        let start = match index.checked_mul(PIXEL_BYTES_AMT) {
            Some(s) => s,
            None => return Err(RenderError::PixelOutOfBounds(index)),
        };
        if start > len || len - start < PIXEL_BYTES_AMT {
            return Err(RenderError::PixelOutOfBounds(index));
        }
        let r = (packed >> 12u16) & 0xfu16;
        let g = (packed >> 8u16) & 0xfu16;
        let b = (packed >> 4u16) & 0xfu16;
        let a = packed & 0xfu16;
        assert(r <= 15 && g <= 15 && b <= 15 && a <= 15) by (bit_vector)
            requires
                r == (packed >> 12u16) & 0xfu16,
                g == (packed >> 8u16) & 0xfu16,
                b == (packed >> 4u16) & 0xfu16,
                a == packed & 0xfu16,
        ;
        let ghost before = self.buffer@;
        self.buffer[start] = (r * 17) as u8;
        self.buffer[start + 1] = (g * 17) as u8;
        self.buffer[start + 2] = (b * 17) as u8;
        self.buffer[start + 3] = (a * 17) as u8;
        assert(self.buffer@ =~= put_bytes(before, index * 4, expand(packed)));
        Ok(())
    }

    /// Copies already decoded RGBA8 bytes into the buffer from pixel `offset`
    /// on: all of them, or none when they do not fit.
    pub fn fill_pixels(&mut self, offset: usize, pixels: &[u8]) -> (r: Result<(), RenderError>)
        ensures
            final(self).width == old(self).width,
            final(self).height == old(self).height,
            final(final(self).buffer)@ == final(old(self).buffer)@,
            fits(old(self).buffer@.len() as int, offset * 4, pixels@.len() as int) ==> r is Ok
                && final(self).buffer@ == put_bytes(old(self).buffer@, offset * 4, pixels@),
            !fits(old(self).buffer@.len() as int, offset * 4, pixels@.len() as int) ==> r == Err::<
                (),
                RenderError,
            >(RenderError::PixelOutOfBounds(offset)) && final(self).buffer@ == old(self).buffer@,
    {
        let len = self.buffer.len();
        let start = match offset.checked_mul(PIXEL_BYTES_AMT) {
            Some(s) => s,
            None => return Err(RenderError::PixelOutOfBounds(offset)),
        };
        if start > len || len - start < pixels.len() {
            return Err(RenderError::PixelOutOfBounds(offset));
        }
        let ghost before = self.buffer@;
        let mut i: usize = 0;
        while i < pixels.len()
            invariant
                0 <= i <= pixels@.len(),
                start == offset * 4,
                start + pixels@.len() <= before.len(),
                before.len() == len,
                self.width == old(self).width,
                self.height == old(self).height,
                final(self.buffer)@ == final(old(self).buffer)@,
                self.buffer@ == put_bytes(before, start as int, pixels@.subrange(0, i as int)),
            decreases pixels@.len() - i,
        {
            self.buffer[start + i] = pixels[i];
            i = i + 1;
            assert(self.buffer@ =~= put_bytes(before, start as int, pixels@.subrange(0, i as int)));
        }
        assert(pixels@.subrange(0, i as int) =~= pixels@);
        Ok(())
    }

    /// Paints `color` at pixel `offset + i` for each entry `mask[i]` equal to
    /// one; the first such pixel outside the buffer stops the drawing, and the
    /// pixels painted before it stay painted.
    pub fn draw_slice(&mut self, mask: &[u8], offset: usize, color: u32) -> (r: Result<(), RenderError>)
        requires
            offset + mask@.len() <= usize::MAX,
        ensures
            final(self).width == old(self).width,
            final(self).height == old(self).height,
            final(final(self).buffer)@ == final(old(self).buffer)@,
            final(self).buffer@ == mask_painted(old(self).buffer@, mask@, offset as int, color),
            r == mask_error(old(self).buffer@.len() as int, mask@, offset as int, 0),
    {
        let ghost before = self.buffer@;
        let ghost len = before.len() as int;
        let mut i: usize = 0;
        while i < mask.len()
            invariant
                0 <= i <= mask@.len(),
                offset + mask@.len() <= usize::MAX,
                self.width == old(self).width,
                self.height == old(self).height,
                final(self.buffer)@ == final(old(self).buffer)@,
                before == old(self).buffer@,
                len == before.len(),
                self.buffer@ == mask_painted(before, mask@.subrange(0, i as int), offset as int, color),
                mask_error(len, mask@, offset as int, 0) == mask_error(len, mask@, offset as int, i as int),
            decreases mask@.len() - i,
        {
            if mask[i] == 1 {
                match self.draw_pixel(offset + i, color) {
                    Ok(()) => {
                        assert(self.buffer@ =~= mask_painted(
                            before,
                            mask@.subrange(0, i + 1),
                            offset as int,
                            color,
                        ));
                    },
                    Err(e) => {
                        assert(mask_painted(before, mask@.subrange(0, i as int), offset as int, color)
                            =~= mask_painted(before, mask@, offset as int, color));
                        return Err(e);
                    },
                }
            } else {
                assert(self.buffer@ =~= mask_painted(
                    before,
                    mask@.subrange(0, i + 1),
                    offset as int,
                    color,
                ));
            }
            i = i + 1;
        }
        assert(mask@.subrange(0, i as int) =~= mask@);
        Ok(())
    }

    /// Writes each packed pixel `pixels[i]` at pixel `offset + i`; the first
    /// pixel outside the buffer stops the writing, and those before it stay
    /// written.
    pub fn fill_slice(&mut self, pixels: &[u16], offset: usize) -> (r: Result<(), RenderError>)
        requires
            offset + pixels@.len() <= usize::MAX,
        ensures
            final(self).width == old(self).width,
            final(self).height == old(self).height,
            final(final(self).buffer)@ == final(old(self).buffer)@,
            final(self).buffer@ == filled(old(self).buffer@, pixels@, offset as int),
            r is Ok <==> (pixels@.len() == 0 || pixel_fits(
                old(self).buffer@.len() as int,
                offset + pixels@.len() - 1,
            )),
            r is Err ==> r->Err_0 is PixelOutOfBounds,
            r matches Err(RenderError::PixelOutOfBounds(p)) ==> offset <= p < offset + pixels@.len()
                && !pixel_fits(old(self).buffer@.len() as int, p as int) && (p == offset
                || pixel_fits(old(self).buffer@.len() as int, p - 1)),
    {
        let ghost before = self.buffer@;
        let ghost len = before.len() as int;
        let mut i: usize = 0;
        while i < pixels.len()
            invariant
                0 <= i <= pixels@.len(),
                offset + pixels@.len() <= usize::MAX,
                self.width == old(self).width,
                self.height == old(self).height,
                final(self.buffer)@ == final(old(self).buffer)@,
                before == old(self).buffer@,
                len == before.len(),
                self.buffer@ == filled(before, pixels@.subrange(0, i as int), offset as int),
                i == 0 || pixel_fits(len, offset + i - 1),
            decreases pixels@.len() - i,
        {
            match self.fill_pixel(offset + i, pixels[i]) {
                Ok(()) => {
                    assert(self.buffer@ =~= filled(before, pixels@.subrange(0, i + 1), offset as int));
                },
                Err(e) => {
                    assert(filled(before, pixels@.subrange(0, i as int), offset as int) =~= filled(
                        before,
                        pixels@,
                        offset as int,
                    ));
                    assert(i == 0 || pixel_fits(len, offset + i - 1));
                    return Err(e);
                },
            }
            i = i + 1;
        }
        assert(pixels@.subrange(0, i as int) =~= pixels@);
        Ok(())
    }

    /// Copies the complete rows of `pixels` (decoded RGBA8, `row_width` pixels
    /// a row) into the buffer, row `r` from pixel `offset + r * width` on,
    /// where `width` is this surface's row stride. The first row that does not
    /// fit stops the copy; the rows before it stay copied.
    pub fn blit(&mut self, pixels: &[u8], row_width: usize, offset: usize) -> (r: Result<(), RenderError>)
        ensures
            final(self).width == old(self).width,
            final(self).height == old(self).height,
            final(final(self).buffer)@ == final(old(self).buffer)@,
            final(self).buffer@.len() == old(self).buffer@.len(),
            (final(self).buffer@, r) == blit_rows(
                old(self).buffer@,
                pixels@,
                row_width as int,
                offset as int,
                old(self).width as int,
                row_count(pixels@.len() as int, row_width as int) as nat,
            ),
    {
        let ghost before = self.buffer@;
        let ghost rows = row_count(pixels@.len() as int, row_width as int) as nat;
        let plen = pixels.len();
        let row_bytes = match row_width.checked_mul(PIXEL_BYTES_AMT) {
            Some(b) => b,
            None => {
                assert(rows == 0) by (nonlinear_arith)
                    requires
                        rows == row_count(pixels@.len() as int, row_width as int) as nat,
                        row_width * 4 > usize::MAX,
                        pixels@.len() <= usize::MAX,
                ;
                return Ok(());
            },
        };
        if row_bytes == 0 {
            return Ok(());
        }
        assert(rows as int == pixels@.len() as int / (row_width * 4) as int);
        let stride = self.width;
        let blen = self.buffer.len();
        let mut k: usize = 0;
        let mut start: usize = 0;
        while plen - start >= row_bytes
            invariant
                plen == pixels@.len(),
                row_bytes == row_width * 4,
                row_bytes > 0,
                rows as int == pixels@.len() as int / (row_width * 4) as int,
                start == k * row_bytes,
                start <= pixels@.len(),
                stride == old(self).width,
                before.len() == blen,
                self.buffer@.len() == blen,
                self.width == old(self).width,
                self.height == old(self).height,
                final(self.buffer)@ == final(old(self).buffer)@,
                before == old(self).buffer@,
                (self.buffer@, Ok::<(), RenderError>(())) == blit_rows(
                    before,
                    pixels@,
                    row_width as int,
                    offset as int,
                    stride as int,
                    k as nat,
                ),
            decreases pixels@.len() - start,
        {
            assert(k + 1 <= rows) by (nonlinear_arith)
                requires
                    start == k * row_bytes,
                    start + row_bytes <= pixels@.len(),
                    row_bytes == row_width * 4,
                    row_bytes > 0,
                    rows as int == pixels@.len() as int / (row_width * 4) as int,
            ;
            let row = &pixels[start..start + row_bytes];
            assert(row@ == pixels@.subrange(k * row_width * 4, (k + 1) * row_width * 4)) by (
            nonlinear_arith)
                requires
                    row@ == pixels@.subrange(start as int, start + row_bytes),
                    start == k * row_bytes,
                    row_bytes == row_width * 4,
            ;
            let dst = match k.checked_mul(stride) {
                Some(m) => match m.checked_add(offset) {
                    Some(d) => d,
                    None => {
                        proof {
                            let dst = offset + k * stride;
                            assert(dst > usize::MAX);
                            assert(!fits(before.len() as int, dst * 4, row_bytes as int));
                            lemma_blit_rows_stop(before, pixels@, row_width as int, offset as int,
                                stride as int, (k + 1) as nat, rows);
                        }
                        return Err(RenderError::PixelOutOfBounds(usize::MAX));
                    },
                },
                None => {
                    assert(k * stride >= 0 && offset + k * stride > usize::MAX) by (nonlinear_arith)
                        requires
                            k * stride > usize::MAX,
                            offset >= 0,
                    ;
                    proof {
                        lemma_blit_rows_stop(before, pixels@, row_width as int, offset as int,
                            stride as int, (k + 1) as nat, rows);
                    }
                    return Err(RenderError::PixelOutOfBounds(usize::MAX));
                },
            };
            match self.fill_pixels(dst, row) {
                Ok(()) => {},
                Err(e) => {
                    proof {
                        let n1 = (k + 1) as nat;
                        assert((n1 - 1) as nat == k as nat);
                        assert(dst == offset + (n1 - 1) * stride);
                        assert(row@ == pixels@.subrange((n1 - 1) * row_width * 4, n1 * row_width * 4));
                        assert(!fits(before.len() as int, dst * 4, row_bytes as int));
                        lemma_blit_rows_stop(before, pixels@, row_width as int, offset as int,
                            stride as int, (k + 1) as nat, rows);
                    }
                    return Err(e);
                },
            }
            k = k + 1;
            start = start + row_bytes;
            assert(start == k * row_bytes) by (nonlinear_arith)
                requires
                    start == (k - 1) * row_bytes + row_bytes,
            ;
        }
        assert(k == rows) by (nonlinear_arith)
            requires
                start == k * row_bytes,
                start <= pixels@.len(),
                pixels@.len() < start + row_bytes,
                row_bytes == row_width * 4,
                row_bytes > 0,
                rows as int == pixels@.len() as int / (row_width * 4) as int,
        ;
        Ok(())
    }

    /// Copies `pixels` into `ctx` at the pixel index `offset`, which may lie past
    /// `usize`, as `blit_at` states.
    pub(crate) fn blit_checked(&mut self, pixels: &[u8], row_width: usize, offset: Option<usize>, ghost_offset: Ghost<int>) -> (r: Result<(), RenderError>)
        requires
            offset == (if ghost_offset@ <= usize::MAX { Some(ghost_offset@ as usize) } else { None::<usize> }),
            ghost_offset@ >= 0,
        ensures
            final(self).width == old(self).width,
            final(self).height == old(self).height,
            final(final(self).buffer)@ == final(old(self).buffer)@,
            final(self).buffer@.len() == old(self).buffer@.len(),
            (final(self).buffer@, r) == blit_at(old(self).buffer@, pixels@, row_width as int, ghost_offset@, old(self).width as int),
    {
        if let Some(o) = offset {
            let r = self.blit(pixels, row_width, o);
            return r;
        }
        assert(ghost_offset@ > usize::MAX);
        let plen = pixels.len();
        let blen = self.buffer.len();
        let ghost rows = row_count(pixels@.len() as int, row_width as int) as nat;
        let has_row = match row_width.checked_mul(PIXEL_BYTES_AMT) {
            Some(b) => b > 0 && plen >= b,
            None => false,
        };
        if !has_row {
            assert(rows == 0) by (nonlinear_arith)
                requires
                    rows == row_count(pixels@.len() as int, row_width as int),
                    row_width * 4 > usize::MAX || row_width * 4 == 0 || pixels@.len() < row_width * 4,
                    pixels@.len() <= usize::MAX,
                    row_width >= 0,
            ;
            return Ok(());
        }
        assert(rows >= 1) by (nonlinear_arith)
            requires
                rows == row_count(pixels@.len() as int, row_width as int),
                row_width * 4 > 0,
                pixels@.len() >= row_width * 4,
        ;
        proof {
            assert(ghost_offset@ * 4 > blen);
            assert(blit_rows(self.buffer@, pixels@, row_width as int, ghost_offset@, self.width as int, 0) == (self.buffer@, Ok::<(), RenderError>(())));
            assert(sat_index(ghost_offset@ + (1 - 1) * self.width) == usize::MAX);
            assert(blit_rows(self.buffer@, pixels@, row_width as int, ghost_offset@, self.width as int, 1) == (self.buffer@, Err::<(), RenderError>(RenderError::PixelOutOfBounds(usize::MAX))));
            lemma_blit_rows_stop(self.buffer@, pixels@, row_width as int, ghost_offset@, self.width as int, 1, rows);
        }
        Err(RenderError::PixelOutOfBounds(usize::MAX))
    }


    /// Draws a glyph given as a mask of complete rows of `L` entries, row `r`
    /// from pixel `offset + r * width` on; a row with a marked pixel outside
    /// the buffer stops the drawing after that row.
    pub fn draw_letter<const L: usize>(&mut self, letter: &[u8], offset: usize, color: u32) -> (r:
        Result<(), RenderError>)
        requires
            L > 0,
            offset + (letter@.len() as int / (L as int)) * old(self).width + L <= usize::MAX,
        ensures
            final(self).width == old(self).width,
            final(self).height == old(self).height,
            final(final(self).buffer)@ == final(old(self).buffer)@,
            (final(self).buffer@, r) == letter_rows(
                old(self).buffer@,
                letter@,
                L as int,
                offset as int,
                old(self).width as int,
                color,
                (letter@.len() as int / (L as int)) as nat,
            ),
    {
        let ghost before = self.buffer@;
        let ghost rows = (letter@.len() as int / (L as int)) as nat;
        let stride = self.width;
        let blen = self.buffer.len();
        let mut k: usize = 0;
        let mut start: usize = 0;
        let mut dst: usize = offset;
        while letter.len() - start >= L
            invariant
                L > 0,
                rows as int == letter@.len() as int / (L as int),
                offset + rows * stride + L <= usize::MAX,
                start == k * L,
                start <= letter@.len(),
                dst == offset + k * stride,
                k <= rows,
                stride == old(self).width,
                before.len() == blen,
                self.buffer@.len() == blen,
                self.width == old(self).width,
                self.height == old(self).height,
                final(self.buffer)@ == final(old(self).buffer)@,
                before == old(self).buffer@,
                (self.buffer@, Ok::<(), RenderError>(())) == letter_rows(
                    before,
                    letter@,
                    L as int,
                    offset as int,
                    stride as int,
                    color,
                    k as nat,
                ),
            decreases letter@.len() - start,
        {
            assert(k + 1 <= rows && k * stride + stride <= rows * stride) by (nonlinear_arith)
                requires
                    start == k * L,
                    start + L <= letter@.len(),
                    L > 0,
                    stride >= 0,
                    rows as int == letter@.len() as int / (L as int),
            ;
            let row = &letter[start..start + L];
            assert(row@ == letter@.subrange(k * L, (k + 1) * L)) by (nonlinear_arith)
                requires
                    row@ == letter@.subrange(start as int, start + L),
                    start == k * L,
            ;
            let ghost n1 = (k + 1) as nat;
            assert((n1 - 1) as nat == k as nat);
            assert(dst == offset + (n1 - 1) * stride);
            assert(row@ == letter@.subrange((n1 - 1) * L, n1 * L));
            let res = self.draw_slice(row, dst, color);
            match res {
                Ok(()) => {
                    proof {
                        lemma_mask_error_ok(blen as int, row@, dst as int, 0);
                    }
                },
                Err(e) => {
                    proof {
                        lemma_letter_rows_stop(before, letter@, L as int, offset as int,
                            stride as int, color, n1, rows);
                    }
                    return Err(e);
                },
            }
            k = k + 1;
            start = start + L;
            dst = dst + stride;
            assert(start == k * L && dst == offset + k * stride) by (nonlinear_arith)
                requires
                    start == (k - 1) * L + L,
                    dst == offset + (k - 1) * stride + stride,
            ;
        }
        assert(k == rows) by (nonlinear_arith)
            requires
                start == k * L,
                start <= letter@.len(),
                letter@.len() < start + L,
                L > 0,
                rows as int == letter@.len() as int / (L as int),
        ;
        Ok(())
    }

    /// Resampling of a decoded buffer to another size has no defined policy:
    /// the buffer is left as it is.
    pub fn scale(pixels: &mut Vec<u8>, size: Size)
        ensures
            final(pixels)@ == old(pixels)@,
    {
    }
}

/// A position given relative to an edge of the parent. No anchoring policy is
/// defined yet: every such position resolves to the first pixel.
#[derive(Debug, Clone, Copy, PartialEq, Eq, Structural)]
pub enum PositionRel {
    Top(usize),
    Right(usize),
    Bottom(usize),
    Left(usize),
}

impl PositionRel {
    pub fn as_offset(&self, win_width: usize) -> (r: Offset)
        ensures
            r == 0,
    {
        0
    }
}

#[derive(Debug, Clone, Copy, PartialEq, Eq, Structural)]
pub enum Position {
    Relative(PositionRel),
    Absolute(usize, usize),
}

impl Position {
    /// The pixel index of this position in rows of `win_width` pixels.
    pub open spec fn offset_spec(&self, win_width: int) -> int {
        match self {
            Position::Absolute(x, y) => *y * win_width + *x,
            Position::Relative(_) => 0,
        }
    }

    /// `Absolute(x, y)` lies at `y * win_width + x`; a relative position at 0.
    pub fn as_offset(&self, win_width: usize) -> (r: Offset)
        requires
            self.offset_spec(win_width as int) <= usize::MAX,
        ensures
            r == self.offset_spec(win_width as int),
    {
        match self {
            Position::Absolute(x, y) => {
                assert(*y * win_width <= usize::MAX) by (nonlinear_arith)
                    requires
                        *y * win_width + *x <= usize::MAX,
                        *x >= 0,
                ;
                *y * win_width + *x
            },
            Position::Relative(pos) => pos.as_offset(win_width),
        }
    }

    /// The offset of `as_offset`, or `None` where it does not fit in `usize`.
    pub fn checked_offset(&self, win_width: usize) -> (r: Option<Offset>)
        ensures
            r == (if self.offset_spec(win_width as int) <= usize::MAX {
                Some(self.offset_spec(win_width as int) as usize)
            } else {
                None::<usize>
            }),
    {
        match self {
            Position::Absolute(x, y) => match y.checked_mul(win_width) {
                Some(row) => row.checked_add(*x),
                None => {
                    assert(*y * win_width + *x > usize::MAX) by (nonlinear_arith)
                        requires
                            *y * win_width > usize::MAX,
                            *x >= 0,
                    ;
                    None
                },
            },
            Position::Relative(pos) => Some(pos.as_offset(win_width)),
        }
    }
}

/// Something drawable into a render surface.
pub trait Render {
    /// The buffer and outcome of drawing into a surface that held `before`,
    /// with rows of `width` pixels.
    spec fn rendered(&self, before: Seq<u8>, width: usize, height: usize) -> (
        Seq<u8>,
        Result<(), RenderError>,
    );

    fn render(&self, ctx: &mut RenderContext) -> (r: Result<(), RenderError>)
        ensures
            final(ctx).width == old(ctx).width,
            final(ctx).height == old(ctx).height,
            final(final(ctx).buffer)@ == final(old(ctx).buffer)@,
            final(ctx).buffer@.len() == old(ctx).buffer@.len(),
            (final(ctx).buffer@, r) == self.rendered(old(ctx).buffer@, old(ctx).width, old(ctx).height),
    ;

    /// Whether this element reacts to clicks.
    spec fn interactive(&self) -> bool;

    fn is_interactive(&self) -> (r: bool)
        ensures
            r == self.interactive(),
    ;
}

/// A resource that decodes to an RGBA8 pixel buffer.
pub trait Renderable {
    /// The decoded buffer, `view_render_width * view_render_height` pixels,
    /// or the error that decoding meets.
    spec fn decoded(&self) -> Result<Seq<u8>, RenderError>;

    spec fn view_width(&self) -> u16;

    spec fn view_height(&self) -> u16;

    spec fn view_render_width(&self) -> u16;

    spec fn view_render_height(&self) -> u16;

    fn get_pixels(&self) -> (r: Result<Vec<u8>, RenderError>)
        ensures
            match r {
                Ok(v) => self.decoded() == Ok::<Seq<u8>, RenderError>(v@),
                Err(e) => self.decoded() == Err::<Seq<u8>, RenderError>(e),
            },
    ;

    /// Releases what the resource holds outside itself.
    fn destroy(&self) {
    }

    /// The unscaled width.
    fn get_width(&self) -> (r: u16)
        ensures
            r == self.view_width(),
    ;

    /// The unscaled height.
    fn get_height(&self) -> (r: u16)
        ensures
            r == self.view_height(),
    ;

    /// The width of what `get_pixels` produces.
    fn get_render_width(&self) -> (r: u16)
        ensures
            r == self.view_render_width(),
    ;

    /// The height of what `get_pixels` produces.
    fn get_render_height(&self) -> (r: u16)
        ensures
            r == self.view_render_height(),
    ;
}

/// Resizing to a target size by integer replication.
pub trait Resizable: Sized {
    /// Whether resizing `self` to `x` by `y` may give `after` and `r`.
    spec fn resized(&self, x: usize, y: usize, after: Self, r: Result<(), RenderError>) -> bool;

    fn with_size(&mut self, x: usize, y: usize) -> (r: Result<(), RenderError>)
        ensures
            old(self).resized(x, y, *final(self), r),
    ;
}

/// Upscaling by an integer factor.
pub trait Scalable: Sized {
    /// Whether scaling `self` by `factor` may give `after` and `r`.
    spec fn scaled(&self, factor: usize, after: Self, r: Result<(), RenderError>) -> bool;

    fn with_scale(&mut self, scale: usize) -> (r: Result<(), RenderError>)
        ensures
            old(self).scaled(scale, *final(self), r),
    ;
}

} // verus!
