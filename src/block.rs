//! Row-major pixel buffers and clipped blitting between them.
use vstd::prelude::*;

use crate::{Pixel, PIXEL_SIZE};

verus! {

/// The position of pixel `(x, y)` in a row-major buffer whose rows are `width` long.
pub open spec fn offset(width: int, x: int, y: int) -> int {
    y * width + x
}

/// `y * w + x` lies inside a `w` by `h` buffer whenever `(x, y)` lies inside the rectangle.
pub proof fn lemma_offset_in_bounds(w: int, h: int, x: int, y: int)
    requires
        0 <= x < w,
        0 <= y < h,
    ensures
        0 <= offset(w, x, y) < w * h,
        offset(w, x, y) + (w - x) <= w * h,
{
    assert(y * w + x < w * h) by (nonlinear_arith)
        requires
            0 <= x < w,
            0 <= y < h,
    ;
    assert(0 <= y * w) by (nonlinear_arith)
        requires
            0 <= y,
            0 <= w,
    ;
    assert((y + 1) * w <= h * w) by (nonlinear_arith)
        requires
            0 <= y < h,
            0 <= w,
    ;
    assert((y + 1) * w == y * w + w) by (nonlinear_arith);
}

/// Every rectangle of `u32` by `u32` pixels can be indexed with a `usize`, as on a 64-bit
/// target.
pub open spec fn wide_usize() -> bool {
    (u32::MAX as int) * (u32::MAX as int) <= usize::MAX
}

/// A rectangle of `u32` by `u32` pixels fits where [`wide_usize`] holds.
pub proof fn lemma_area_fits(w: u32, h: u32)
    requires
        wide_usize(),
    ensures
        w * h <= usize::MAX,
{
    assert((w as int) * (h as int) <= (u32::MAX as int) * (u32::MAX as int)) by (nonlinear_arith)
        requires
            0 <= w <= u32::MAX,
            0 <= h <= u32::MAX,
    ;
}

/// A rectangle of pixels, stored row by row.
pub struct Block {
    /// Width in pixels.
    pub width: u32,
    /// Height in pixels.
    pub height: u32,
    /// Row-major pixel buffer.
    pub buf: Vec<Pixel>,
}

/// The pixel that ends up at `(x, y)` of `dst` when `src` is painted onto it at
/// `(start_x, start_y)`: inside the overlap it comes from `src`, elsewhere `dst` keeps its own.
pub open spec fn painted_pixel(
    dst: Block,
    src: Block,
    start_x: int,
    start_y: int,
    x: int,
    y: int,
) -> Pixel {
    if dst.width > 0 && src.width > 0 && start_x <= x < start_x + src.width && start_y <= y
        < start_y + src.height {
        src.pixel(x - start_x, y - start_y)
    } else {
        dst.pixel(x, y)
    }
}

impl Block {
    /// The buffer holds exactly one pixel for each position of the rectangle.
    pub open spec fn wf(&self) -> bool {
        self.buf@.len() == self.width * self.height
    }

    /// The pixel at column `x` of row `y`.
    pub open spec fn pixel(&self, x: int, y: int) -> Pixel {
        self.buf@[offset(self.width as int, x, y)]
    }

    /// Row `y` of the block, as a sequence of `width` pixels.
    pub open spec fn row_view(&self, y: int) -> Seq<Pixel> {
        self.buf@.subrange(y * self.width, y * self.width + self.width)
    }

    /// Creates a new [`Block`] of `width` by `height` pixels, all of them `background`.
    pub fn new(width: u32, height: u32, background: Pixel) -> (r: Block)
        requires
            width * height <= usize::MAX,
        ensures
            r.wf(),
            r.width == width,
            r.height == height,
            forall|i: int| 0 <= i < r.buf@.len() ==> r.buf@[i] == background,
    {
        let n: usize = width as usize * height as usize;
        let mut buf: Vec<Pixel> = Vec::with_capacity(n);
        let mut i: usize = 0;
        while i < n
            invariant
                i <= n,
                n == width * height,
                buf@.len() == i,
                forall|j: int| 0 <= j < i ==> buf@[j] == background,
            decreases n - i,
        {
            buf.push(background);
            i += 1;
        }
        Block { width, height, buf }
    }

    /// Returns the rows of this [`Block`], top to bottom.
    pub fn rows(&self) -> (r: Vec<Vec<Pixel>>)
        requires
            self.wf(),
        ensures
            r@.len() == self.height,
            forall|y: int| 0 <= y < self.height ==> (#[trigger] r@[y])@ == self.row_view(y),
    {
        let w: usize = self.width as usize;
        let len: usize = self.buf.len();
        let mut rows: Vec<Vec<Pixel>> = Vec::new();
        let mut y: usize = 0;
        while y < self.height as usize
            invariant
                self.wf(),
                len == self.buf@.len(),
                w == self.width,
                y <= self.height,
                rows@.len() == y,
                forall|k: int| 0 <= k < y ==> (#[trigger] rows@[k])@ == self.row_view(k),
            decreases self.height - y,
        {
            proof {
                if w > 0 {
                    lemma_offset_in_bounds(w as int, self.height as int, 0, y as int);
                }
            }
            let mut row: Vec<Pixel> = Vec::with_capacity(w);
            let mut x: usize = 0;
            while x < w
                invariant
                    self.wf(),
                    len == self.buf@.len(),
                    w == self.width,
                    y < self.height,
                    x <= w,
                    row@.len() == x,
                    forall|k: int| 0 <= k < x ==> row@[k] == self.pixel(k, y as int),
                decreases w - x,
            {
                proof {
                    lemma_offset_in_bounds(w as int, self.height as int, x as int, y as int);
                }
                row.push(self.buf[y * w + x]);
                x += 1;
            }
            proof {
                if w > 0 {
                    lemma_offset_in_bounds(w as int, self.height as int, 0, y as int);
                }
                assert(0 <= y * self.width && y * self.width + self.width <= self.width * self.height)
                    by (nonlinear_arith)
                    requires
                        0 <= y < self.height,
                ;
                assert(self.row_view(y as int).len() == w);
                assert forall|k: int| 0 <= k < w implies row@[k] == #[trigger] self.row_view(
                    y as int,
                )[k] by {
                    assert(offset(w as int, k, y as int) == y * w + k);
                }
                assert(row@ =~= self.row_view(y as int));
            }
            rows.push(row);
            y += 1;
        }
        rows
    }

    /// Paints `other` onto this [`Block`] with its top left corner at `(start_x, start_y)`.
    ///
    /// Where `other` reaches past the right or bottom edge of `self`, only the part that
    /// overlaps is copied; every pixel outside the overlap keeps its value. A block of width
    /// zero, on either side, leaves `self` as it was. The corner must lie within `self`.
    pub fn paint(&mut self, other: &Block, start_x: u32, start_y: u32)
        requires
            old(self).wf(),
            other.wf(),
            old(self).width > 0 && other.width > 0 ==> start_x <= old(self).width && start_y
                <= old(self).height,
        ensures
            final(self).wf(),
            final(self).width == old(self).width,
            final(self).height == old(self).height,
            forall|x: int, y: int|
                0 <= x < final(self).width && 0 <= y < final(self).height
                    ==> #[trigger] final(self).pixel(x, y)
                    == painted_pixel(*old(self), *other, start_x as int, start_y as int, x, y),
    {
        if other.width == 0 || self.width == 0 {
            return ;
        }
        let ghost before = *self;
        let len: usize = self.buf.len();
        let olen: usize = other.buf.len();
        let w: usize = self.width as usize;
        let ow: usize = other.width as usize;
        let delta_x: usize = if other.width < self.width - start_x {
            other.width as usize
        } else {
            (self.width - start_x) as usize
        };
        let delta_y: usize = if other.height < self.height - start_y {
            other.height as usize
        } else {
            (self.height - start_y) as usize
        };
        let sx: usize = start_x as usize;
        let sy: usize = start_y as usize;
        let mut j: usize = 0;
        while j < delta_y
            invariant
                before.wf(),
                other.wf(),
                self.wf(),
                len == self.buf@.len(),
                olen == other.buf@.len(),
                self.width == before.width,
                self.height == before.height,
                w == self.width,
                ow == other.width,
                w > 0,
                ow > 0,
                sx == start_x,
                sy == start_y,
                sx <= w,
                sy <= self.height,
                delta_x == if ow < w - sx { ow as int } else { w - sx },
                delta_y == if other.height < self.height - sy { other.height as int } else { self.height - sy },
                j <= delta_y,
                forall|x: int, y: int|
                    0 <= x < w && 0 <= y < self.height ==> #[trigger] self.pixel(x, y) == if y < sy
                        + j {
                        painted_pixel(before, *other, sx as int, sy as int, x, y)
                    } else {
                        before.pixel(x, y)
                    },
            decreases delta_y - j,
        {
            let mut i: usize = 0;
            while i < delta_x
                invariant
                    before.wf(),
                    other.wf(),
                    self.wf(),
                    len == self.buf@.len(),
                    olen == other.buf@.len(),
                    self.width == before.width,
                    self.height == before.height,
                    w == self.width,
                    ow == other.width,
                    w > 0,
                    ow > 0,
                    sx == start_x,
                    sy == start_y,
                    sx <= w,
                    delta_x == if ow < w - sx { ow as int } else { w - sx },
                    delta_y == if other.height < self.height - sy { other.height as int } else { self.height - sy },
                    j < delta_y,
                    i <= delta_x,
                    forall|x: int, y: int|
                        0 <= x < w && 0 <= y < self.height ==> #[trigger] self.pixel(x, y) == if y
                            < sy + j || (y == sy + j && sx <= x < sx + i) {
                            painted_pixel(before, *other, sx as int, sy as int, x, y)
                        } else {
                            before.pixel(x, y)
                        },
                decreases delta_x - i,
            {
                proof {
                    lemma_offset_in_bounds(w as int, self.height as int, (sx + i) as int, (sy + j) as int);
                    lemma_offset_in_bounds(ow as int, other.height as int, i as int, j as int);
                }
                let p: Pixel = other.buf[j * ow + i];
                let idx: usize = (sy + j) * w + sx + i;
                let ghost prev = *self;
                self.buf[idx] = p;
                proof {
                    assert forall|x: int, y: int|
                        0 <= x < w && 0 <= y < self.height implies #[trigger] self.pixel(x, y) == if y
                            < sy + j || (y == sy + j && sx <= x < sx + i + 1) {
                            painted_pixel(before, *other, sx as int, sy as int, x, y)
                        } else {
                            before.pixel(x, y)
                        } by {
                        lemma_offset_in_bounds(w as int, self.height as int, x, y);
                        if offset(w as int, x, y) == idx as int {
                            lemma_offset_unique(w as int, x, y, (sx + i) as int, (sy + j) as int);
                        } else {
                            assert(self.pixel(x, y) == prev.pixel(x, y));
                        }
                    }
                }
                i += 1;
            }
            proof {
                assert forall|x: int, y: int|
                    0 <= x < w && 0 <= y < self.height implies #[trigger] self.pixel(x, y) == if y
                        < sy + j + 1 {
                        painted_pixel(before, *other, sx as int, sy as int, x, y)
                    } else {
                        before.pixel(x, y)
                    } by {
                    if y == sy + j && !(sx <= x < sx + delta_x) {
                        assert(painted_pixel(before, *other, sx as int, sy as int, x, y) == before.pixel(x, y));
                    }
                }
            }
            j += 1;
        }
        proof {
            assert forall|x: int, y: int|
                0 <= x < w && 0 <= y < self.height implies #[trigger] self.pixel(x, y) == painted_pixel(
                    before, *other, sx as int, sy as int, x, y) by {
                if y >= sy + delta_y {
                    assert(painted_pixel(before, *other, sx as int, sy as int, x, y) == before.pixel(x, y));
                }
            }
        }
    }

    /// Copies this [`Block`] into `pixels` as bytes, four per pixel (`[r, g, b, a]`), in the
    /// same row-major order; the bytes after the block's own are left as they were.
    pub fn draw_onto_pixels(&self, pixels: &mut [u8])
        requires
            self.wf(),
            old(pixels)@.len() >= PIXEL_SIZE * self.buf@.len(),
        ensures
            final(pixels)@.len() == old(pixels)@.len(),
            forall|i: int|
                0 <= i < PIXEL_SIZE * self.buf@.len() ==> #[trigger] final(pixels)@[i]
                    == self.buf@[i / 4][i % 4],
            forall|i: int|
                PIXEL_SIZE * self.buf@.len() <= i < final(pixels)@.len()
                    ==> #[trigger] final(pixels)@[i] == old(pixels)@[i],
    {
        let n: usize = self.buf.len();
        let plen: usize = pixels.len();
        let mut k: usize = 0;
        while k < n
            invariant
                n == self.buf@.len(),
                plen == pixels@.len(),
                k <= n,
                pixels@.len() == old(pixels)@.len(),
                pixels@.len() >= 4 * n,
                forall|i: int| 0 <= i < 4 * k ==> #[trigger] pixels@[i] == self.buf@[i / 4][i % 4],
                forall|i: int| 4 * k <= i < pixels@.len() ==> #[trigger] pixels@[i] == old(pixels)@[i],
            decreases n - k,
        {
            let p: Pixel = self.buf[k];
            let mut c: usize = 0;
            while c < PIXEL_SIZE
                invariant
                    n == self.buf@.len(),
                    plen == pixels@.len(),
                    k < n,
                    c <= 4,
                    p == self.buf@[k as int],
                    pixels@.len() == old(pixels)@.len(),
                    pixels@.len() >= 4 * n,
                    forall|i: int| 0 <= i < 4 * k + c ==> #[trigger] pixels@[i] == self.buf@[i / 4][i % 4],
                    forall|i: int| 4 * k + c <= i < pixels@.len() ==> #[trigger] pixels@[i] == old(pixels)@[i],
                decreases 4 - c,
            {
                pixels[4 * k + c] = p[c];
                proof {
                    assert((4 * k + c) / 4 == k as int);
                    assert((4 * k + c) % 4 == c as int);
                }
                c += 1;
            }
            k += 1;
        }
    }
}

/// Two positions inside rows of width `w` that share an offset are the same position.
pub proof fn lemma_offset_unique(w: int, x1: int, y1: int, x2: int, y2: int)
    requires
        0 <= x1 < w,
        0 <= x2 < w,
        0 <= y1,
        0 <= y2,
        offset(w, x1, y1) == offset(w, x2, y2),
    ensures
        x1 == x2,
        y1 == y2,
{
    if y1 < y2 {
        assert(y1 * w + w <= y2 * w) by (nonlinear_arith)
            requires
                y1 < y2,
                0 <= w,
        ;
    } else if y2 < y1 {
        assert(y2 * w + w <= y1 * w) by (nonlinear_arith)
            requires
                y2 < y1,
                0 <= w,
        ;
    }
}

} // verus!
