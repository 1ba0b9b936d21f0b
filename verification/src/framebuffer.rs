//! Framebuffer abstraction for direct display output.
//!
//! Pixels are stored three bytes each in blue, green, red order; every row is
//! padded to a multiple of four bytes.
use vstd::prelude::*;

verus! {

/// RGB888 pixel — stored internally as BGR (blue at lowest byte address).
#[derive(Debug, Clone, Copy, PartialEq, Eq, Structural)]
pub struct Pixel {
    pub r: u8,
    pub g: u8,
    pub b: u8,
}

impl Pixel {
    pub open spec fn spec_black() -> Pixel {
        Pixel { r: 0, g: 0, b: 0 }
    }

    /// The black pixel.
    pub fn black() -> (p: Pixel)
        ensures
            p == Pixel::spec_black(),
    {
        Pixel { r: 0, g: 0, b: 0 }
    }

    /// The white pixel.
    pub open spec fn white_spec() -> Pixel {
        Pixel { r: 255, g: 255, b: 255 }
    }

    pub fn white() -> (p: Pixel)
        ensures
            p == Pixel::white_spec(),
    {
        Pixel { r: 255, g: 255, b: 255 }
    }
}

pub struct Framebuffer {
    pub width: u32,
    pub height: u32,
    /// bytes per row (width * 3, aligned to 4 bytes)
    pub stride: u32,
    pub data: Vec<u8>,
}

/// Row length in bytes for a given width: three bytes per pixel, rounded up to
/// a multiple of four.
pub open spec fn stride_for(width: int) -> int {
    (width * 3 + 3) / 4 * 4
}

/// Byte `b` of row `r`.
pub open spec fn at(data: Seq<u8>, stride: int, r: int, b: int) -> u8 {
    data[r * stride + b]
}

/// The colour component stored at byte `b` of a row (blue, green, red, ...).
pub open spec fn component(color: Pixel, b: int) -> u8 {
    if b % 3 == 0 {
        color.b
    } else if b % 3 == 1 {
        color.g
    } else {
        color.r
    }
}

/// `new` is `old` with the pixels of columns `x0..x1`, rows `y0..y1` set to
/// `color` and every other byte kept.
pub open spec fn painted(
    old: Seq<u8>,
    new: Seq<u8>,
    stride: int,
    height: int,
    x0: int,
    x1: int,
    y0: int,
    y1: int,
    color: Pixel,
) -> bool {
    &&& new.len() == old.len()
    &&& forall|r: int, b: int|
        0 <= r < height && 0 <= b < stride ==> #[trigger] at(new, stride, r, b) == if y0 <= r < y1
            && 3 * x0 <= b < 3 * x1 {
            component(color, b)
        } else {
            at(old, stride, r, b)
        }
}

pub proof fn lemma_index_bounds(stride: int, height: int, r: int, b: int)
    requires
        0 <= r < height,
        0 <= b < stride,
    ensures
        0 <= r * stride + b < stride * height,
        r * stride + stride <= stride * height,
{
    assert(0 <= r * stride) by (nonlinear_arith)
        requires
            0 <= r,
            0 <= b < stride,
    ;
    assert(r * stride + stride <= stride * height) by (nonlinear_arith)
        requires
            0 <= r < height,
            0 <= b < stride,
    ;
}

/// Painting a pixel and reading it back gives the painted colour; every other
/// pixel reads as before.
pub proof fn law_pixel_read_after_write(
    fb0: Framebuffer,
    fb1: Framebuffer,
    x: int,
    y: int,
    color: Pixel,
    x2: int,
    y2: int,
)
    requires
        fb0.wf(),
        0 <= x < fb0.width,
        0 <= y < fb0.height,
        0 <= x2 < fb0.width,
        0 <= y2 < fb0.height,
        fb1.width == fb0.width,
        fb1.height == fb0.height,
        fb1.stride == fb0.stride,
        painted(fb0.data@, fb1.data@, fb0.stride as int, fb0.height as int, x, x + 1, y, y + 1, color),
    ensures
        fb1.pixel(x, y) == color,
        (x2 != x || y2 != y) ==> fb1.pixel(x2, y2) == fb0.pixel(x2, y2),
{
    let st = fb0.stride as int;
    assert(3 * fb0.width <= st);
    assert forall|px: int, py: int, k: int|
        0 <= px < fb0.width && 0 <= py < fb0.height && 0 <= k < 3 implies #[trigger] fb1.data@[py * st
        + (3 * px + k)] == if py == y && px == x {
        component(color, 3 * px + k)
    } else {
        fb0.data@[py * st + (3 * px + k)]
    } by {
        assert(at(fb1.data@, st, py, 3 * px + k) == fb1.data@[py * st + (3 * px + k)]);
        assert((3 * x <= 3 * px + k < 3 * (x + 1)) == (px == x));
    }
    assert((3 * x) % 3 == 0 && (3 * x + 1) % 3 == 1 && (3 * x + 2) % 3 == 2);
    assert(y * st + x * 3 == y * st + (3 * x + 0));
    assert(fb1.data@[y * st + (3 * x + 0)] == color.b);
    assert(fb1.data@[y * st + (3 * x + 1)] == color.g);
    assert(fb1.data@[y * st + (3 * x + 2)] == color.r);
    if x2 != x || y2 != y {
        assert(fb1.data@[y2 * st + (3 * x2 + 0)] == fb0.data@[y2 * st + (3 * x2 + 0)]);
        assert(fb1.data@[y2 * st + (3 * x2 + 1)] == fb0.data@[y2 * st + (3 * x2 + 1)]);
        assert(fb1.data@[y2 * st + (3 * x2 + 2)] == fb0.data@[y2 * st + (3 * x2 + 2)]);
    }
}

pub proof fn lemma_index_unique(stride: int, r1: int, b1: int, r2: int, b2: int)
    requires
        0 <= b1 < stride,
        0 <= b2 < stride,
        0 <= r1,
        0 <= r2,
        r1 * stride + b1 == r2 * stride + b2,
    ensures
        r1 == r2,
        b1 == b2,
{
    if r1 < r2 {
        assert(r1 * stride + stride <= r2 * stride) by (nonlinear_arith)
            requires
                r1 < r2,
                0 <= b1 < stride,
        ;
    } else if r2 < r1 {
        assert(r2 * stride + stride <= r1 * stride) by (nonlinear_arith)
            requires
                r2 < r1,
                0 <= b1 < stride,
        ;
    }
}

/// Moves `data[src_start..src_end]` to start at `dst`, as `copy_within` does:
/// the target range afterwards holds the old source bytes (the ranges may
/// overlap) and every other byte is unchanged.
fn copy_within(data: &mut Vec<u8>, src_start: usize, src_end: usize, dst: usize)
    requires
        src_start <= src_end <= old(data)@.len(),
        dst + (src_end - src_start) <= old(data)@.len(),
    ensures
        final(data)@.len() == old(data)@.len(),
        forall|i: int|
            dst <= i < dst + (src_end - src_start) ==> #[trigger] final(data)@[i] == old(data)@[src_start
                + (i - dst)],
        forall|i: int|
            0 <= i < old(data)@.len() && !(dst <= i < dst + (src_end - src_start))
                ==> #[trigger] final(data)@[i] == old(data)@[i],
{
    let ghost d0 = data@;
    assert(d0.len() == data.len());
    let n = src_end - src_start;
    if dst <= src_start {
        let mut k: usize = 0;
        while k < n
            invariant
                n == src_end - src_start,
                dst <= src_start,
                src_end <= d0.len(),
                dst + n <= d0.len(),
                k <= n,
                data@.len() == d0.len(),
                forall|i: int| dst <= i < dst + k ==> #[trigger] data@[i] == d0[src_start + (i - dst)],
                forall|i: int|
                    0 <= i < d0.len() && !(dst <= i < dst + k) ==> #[trigger] data@[i] == d0[i],
            decreases n - k,
        {
            let v = data[src_start + k];
            data.set(dst + k, v);
            k = k + 1;
        }
    } else {
        let mut k: usize = n;
        while k > 0
            invariant
                n == src_end - src_start,
                dst > src_start,
                d0.len() <= usize::MAX,
                src_end <= d0.len(),
                dst + n <= d0.len(),
                k <= n,
                data@.len() == d0.len(),
                forall|i: int|
                    dst + k <= i < dst + n ==> #[trigger] data@[i] == d0[src_start + (i - dst)],
                forall|i: int|
                    0 <= i < d0.len() && !(dst + k <= i < dst + n) ==> #[trigger] data@[i] == d0[i],
            decreases k,
        {
            let v = data[src_start + k - 1];
            data.set(dst + (k - 1), v);
            k = k - 1;
        }
    }
}

impl Framebuffer {
    /// The stride matches the width and the buffer holds exactly `height` rows.
    pub open spec fn wf(&self) -> bool {
        &&& self.stride as int == stride_for(self.width as int)
        &&& self.data@.len() == (self.stride as int) * (self.height as int)
        &&& (self.stride as int) * (self.height as int) <= u32::MAX
    }

    /// The pixel at `(x, y)` of an in-bounds position.
    pub open spec fn pixel(&self, x: int, y: int) -> Pixel {
        let off = y * self.stride + x * 3;
        Pixel { b: self.data@[off], g: self.data@[off + 1], r: self.data@[off + 2] }
    }

    pub fn new(width: u32, height: u32) -> (fb: Self)
        requires
            (width as int) * 3 + 3 <= u32::MAX,
            stride_for(width as int) * (height as int) <= u32::MAX,
        ensures
            fb.wf(),
            fb.width == width,
            fb.height == height,
            forall|i: int| 0 <= i < fb.data@.len() ==> fb.data@[i] == 0,
    {
        let t: u32 = width * 3 + 3;
        let stride = t & !3;
        assert(stride == t / 4 * 4) by (bit_vector)
            requires
                stride == t & !3u32,
        ;
        let size = (stride * height) as usize;
        Self { width, height, stride, data: vec![0u8; size] }
    }

    pub fn set_pixel(&mut self, x: u32, y: u32, pixel: Pixel)
        requires
            old(self).wf(),
        ensures
            final(self).wf(),
            final(self).width == old(self).width,
            final(self).height == old(self).height,
            final(self).stride == old(self).stride,
            !(x < old(self).width && y < old(self).height) ==> final(self).data@ == old(self).data@,
            x < old(self).width && y < old(self).height ==> painted(
                old(self).data@,
                final(self).data@,
                old(self).stride as int,
                old(self).height as int,
                x as int,
                x + 1,
                y as int,
                y + 1,
                pixel,
            ),
    {
        if x >= self.width || y >= self.height {
            return ;
        }
        let ghost stride = self.stride as int;
        let ghost height = self.height as int;
        proof {
            lemma_index_bounds(stride, height, y as int, x * 3 + 2);
        }
        let off = (y * self.stride + x * 3) as usize;
        let ghost old_data = self.data@;
        self.data.set(off, pixel.b);
        self.data.set(off + 1, pixel.g);
        self.data.set(off + 2, pixel.r);
        proof {
            assert forall|r: int, b: int| 0 <= r < height && 0 <= b < stride implies #[trigger] at(
                self.data@,
                stride,
                r,
                b,
            ) == if y <= r < y + 1 && 3 * x <= b < 3 * (x + 1) {
                component(pixel, b)
            } else {
                at(old_data, stride, r, b)
            } by {
                lemma_index_bounds(stride, height, r, b);
                if r == y && 3 * x <= b < 3 * x + 3 {
                    assert(b % 3 == b - 3 * x);
                } else {
                    if r * stride + b == off {
                        lemma_index_unique(stride, r, b, y as int, 3 * x);
                    }
                    if r * stride + b == off + 1 {
                        lemma_index_unique(stride, r, b, y as int, 3 * x + 1);
                    }
                    if r * stride + b == off + 2 {
                        lemma_index_unique(stride, r, b, y as int, 3 * x + 2);
                    }
                }
            }
        }
    }

    pub fn get_pixel(&self, x: u32, y: u32) -> (p: Pixel)
        requires
            self.wf(),
        ensures
            x < self.width && y < self.height ==> p == self.pixel(x as int, y as int),
            !(x < self.width && y < self.height) ==> p == Pixel::spec_black(),
    {
        if x >= self.width || y >= self.height {
            return Pixel::black();
        }
        proof {
            lemma_index_bounds(self.stride as int, self.height as int, y as int, x * 3 + 2);
        }
        let off = (y * self.stride + x * 3) as usize;
        Pixel { b: self.data[off], g: self.data[off + 1], r: self.data[off + 2] }
    }
}


/// `min(a, b)`.
pub open spec fn min(a: int, b: int) -> int {
    if a < b {
        a
    } else {
        b
    }
}

impl Framebuffer {
    /// Fill a solid-colour rectangle, clipped to the framebuffer. The first row
    /// is written pixel by pixel and then copied into every other row.
    pub fn fill_rect(&mut self, x: u32, y: u32, w: u32, h: u32, color: Pixel)
        requires
            old(self).wf(),
        ensures
            final(self).wf(),
            final(self).width == old(self).width,
            final(self).height == old(self).height,
            final(self).stride == old(self).stride,
            painted(
                old(self).data@,
                final(self).data@,
                old(self).stride as int,
                old(self).height as int,
                min(x as int, old(self).width as int),
                min(x + w, old(self).width as int),
                min(y as int, old(self).height as int),
                min(y + h, old(self).height as int),
                color,
            ),
    {
        let ghost old_data = self.data@;
        let ghost stride_i = self.stride as int;
        let ghost height_i = self.height as int;
        let x0 = if x < self.width {
            x
        } else {
            self.width
        };
        let y0 = if y < self.height {
            y
        } else {
            self.height
        };
        let xs = x.saturating_add(w);
        let ys = y.saturating_add(h);
        let x1 = if xs < self.width {
            xs
        } else {
            self.width
        };
        let y1 = if ys < self.height {
            ys
        } else {
            self.height
        };
        if x0 >= x1 || y0 >= y1 {
            assert forall|r: int, b: int|
                0 <= r < height_i && 0 <= b < stride_i implies #[trigger] at(self.data@, stride_i, r, b)
                == if y0 <= r < y1 && 3 * x0 <= b < 3 * x1 {
                component(color, b)
            } else {
                at(old_data, stride_i, r, b)
            } by {}
            return ;
        }
        let cols = (x1 - x0) as usize;
        let stride = self.stride as usize;
        proof {
            lemma_index_bounds(stride_i, height_i, y0 as int, 3 * x0 as int);
            lemma_index_bounds(stride_i, height_i, y0 as int, 3 * x1 - 1);
        }
        let row0 = (y0 * self.stride + x0 * 3) as usize;
        let row_bytes = cols * 3;
        let mut c: usize = 0;
        while c < cols
            invariant
                self.wf(),
                self.stride == stride_i,
                self.height == height_i,
                self.width == old(self).width,
                stride == stride_i,
                x0 < x1 <= self.width,
                y0 < y1 <= self.height,
                cols == x1 - x0,
                row0 == y0 * stride_i + 3 * x0,
                row0 + 3 * cols <= stride_i * height_i,
                c <= cols,
                self.data@.len() == old_data.len(),
                forall|r: int, b: int|
                    0 <= r < height_i && 0 <= b < stride_i ==> #[trigger] at(self.data@, stride_i, r, b)
                        == if r == y0 && 3 * x0 <= b < 3 * x0 + 3 * c {
                        component(color, b)
                    } else {
                        at(old_data, stride_i, r, b)
                    },
            decreases cols - c,
        {
            let off = row0 + c * 3;
            let ghost before = self.data@;
            proof {
                lemma_index_bounds(stride_i, height_i, y0 as int, 3 * x0 + 3 * c + 2);
            }
            self.data.set(off, color.b);
            self.data.set(off + 1, color.g);
            self.data.set(off + 2, color.r);
            proof {
                assert forall|r: int, b: int|
                    0 <= r < height_i && 0 <= b < stride_i implies #[trigger] at(
                    self.data@,
                    stride_i,
                    r,
                    b,
                ) == if r == y0 && 3 * x0 <= b < 3 * x0 + 3 * (c + 1) {
                    component(color, b)
                } else {
                    at(old_data, stride_i, r, b)
                } by {
                    lemma_index_bounds(stride_i, height_i, r, b);
                    assert(at(before, stride_i, r, b) == if r == y0 && 3 * x0 <= b < 3 * x0 + 3
                        * c {
                        component(color, b)
                    } else {
                        at(old_data, stride_i, r, b)
                    });
                    let k = b - (3 * x0 + 3 * c);
                    if r == y0 && 0 <= k < 3 {
                        assert(b % 3 == k);
                    } else {
                        if r * stride_i + b == off {
                            lemma_index_unique(stride_i, r, b, y0 as int, 3 * x0 + 3 * c);
                        }
                        if r * stride_i + b == off + 1 {
                            lemma_index_unique(stride_i, r, b, y0 as int, 3 * x0 + 3 * c + 1);
                        }
                        if r * stride_i + b == off + 2 {
                            lemma_index_unique(stride_i, r, b, y0 as int, 3 * x0 + 3 * c + 2);
                        }
                    }
                }
            }
            c = c + 1;
        }
        let mut row: u32 = y0 + 1;
        while row < y1
            invariant
                self.wf(),
                self.stride == stride_i,
                self.height == height_i,
                self.width == old(self).width,
                stride == stride_i,
                x0 < x1 <= self.width,
                y0 < row <= y1,
                y1 <= self.height,
                cols == x1 - x0,
                row_bytes == 3 * cols,
                row0 == y0 * stride_i + 3 * x0,
                self.data@.len() == old_data.len(),
                forall|r: int, b: int|
                    0 <= r < height_i && 0 <= b < stride_i ==> #[trigger] at(self.data@, stride_i, r, b)
                        == if y0 <= r < row && 3 * x0 <= b < 3 * x1 {
                        component(color, b)
                    } else {
                        at(old_data, stride_i, r, b)
                    },
            decreases y1 - row,
        {
            proof {
                lemma_index_bounds(stride_i, height_i, row as int, 3 * x0 as int);
                lemma_index_bounds(stride_i, height_i, row as int, 3 * x1 - 1);
                lemma_index_bounds(stride_i, height_i, y0 as int, 3 * x1 - 1);
            }
            let dst = (row as usize) * stride + x0 as usize * 3;
            let ghost before = self.data@;
            copy_within(&mut self.data, row0, row0 + row_bytes, dst);
            proof {
                assert forall|r: int, b: int|
                    0 <= r < height_i && 0 <= b < stride_i implies #[trigger] at(
                    self.data@,
                    stride_i,
                    r,
                    b,
                ) == if y0 <= r < row + 1 && 3 * x0 <= b < 3 * x1 {
                    component(color, b)
                } else {
                    at(old_data, stride_i, r, b)
                } by {
                    lemma_index_bounds(stride_i, height_i, r, b);
                    let i = r * stride_i + b;
                    if r == row && 3 * x0 <= b < 3 * x1 {
                        assert(self.data@[i] == before[row0 + (i - dst)]);
                        assert(row0 + (i - dst) == y0 * stride_i + b);
                        assert(at(before, stride_i, y0 as int, b) == component(color, b));
                    } else {
                        if dst <= i < dst + row_bytes {
                            lemma_index_unique(stride_i, r, b, row as int, 3 * x0 + (i - dst));
                        }
                        assert(self.data@[i] == before[i]);
                        assert(at(before, stride_i, r, b) == self.data@[i]);
                    }
                }
            }
            row = row + 1;
        }
    }

    /// Clear the entire framebuffer to one colour (padding bytes are kept; a
    /// framebuffer with no rows is left as it is).
    pub fn clear(&mut self, color: Pixel)
        requires
            old(self).wf(),
        ensures
            final(self).wf(),
            final(self).width == old(self).width,
            final(self).height == old(self).height,
            final(self).stride == old(self).stride,
            painted(
                old(self).data@,
                final(self).data@,
                old(self).stride as int,
                old(self).height as int,
                0,
                old(self).width as int,
                0,
                old(self).height as int,
                color,
            ),
    {
        let w = self.width;
        let h = self.height;
        self.fill_rect(0, 0, w, h, color);
    }

    /// Copy a `w`×`h` block from `src` at `(sx, sy)` to `(dx, dy)`, clipped to
    /// both framebuffers.
    pub fn blit_dirty_rect(
        &mut self,
        src: &Framebuffer,
        dx: u32,
        dy: u32,
        sx: u32,
        sy: u32,
        w: u32,
        h: u32,
    )
        requires
            old(self).wf(),
            src.wf(),
            blit_extent(h, src.height, sy, old(self).height, dy) > 0 ==> (sy + blit_extent(
                h,
                src.height,
                sy,
                old(self).height,
                dy,
            ) - 1) * src.stride + sx * 3 <= u32::MAX && (dy + blit_extent(
                h,
                src.height,
                sy,
                old(self).height,
                dy,
            ) - 1) * old(self).stride + dx * 3 <= u32::MAX,
        ensures
            final(self).wf(),
            final(self).width == old(self).width,
            final(self).height == old(self).height,
            final(self).stride == old(self).stride,
            final(self).data@.len() == old(self).data@.len(),
            forall|r: int, b: int|
                0 <= r < old(self).height && 0 <= b < old(self).stride ==> #[trigger] at(
                    final(self).data@,
                    old(self).stride as int,
                    r,
                    b,
                ) == if dy <= r < dy + blit_extent(h, src.height, sy, old(self).height, dy) && 3
                    * dx <= b < 3 * dx + 3 * blit_extent(w, src.width, sx, old(self).width, dx) {
                    at(src.data@, src.stride as int, sy + (r - dy), 3 * sx + (b - 3 * dx))
                } else {
                    at(old(self).data@, old(self).stride as int, r, b)
                },
    {
        let ghost old_data = self.data@;
        let ghost ds = self.stride as int;
        let ghost dh = self.height as int;
        let ghost ss = src.stride as int;
        let ghost sh = src.height as int;
        let ghost old_w = w;
        let ghost old_h = h;
        let w = min_u32(min_u32(w, src.width.saturating_sub(sx)), self.width.saturating_sub(dx));
        let h = min_u32(min_u32(h, src.height.saturating_sub(sy)), self.height.saturating_sub(dy));
        let mut row: u32 = 0;
        while row < h
            invariant
                self.wf(),
                src.wf(),
                self.stride == ds,
                self.height == dh,
                self.width == old(self).width,
                w as int == blit_extent(old_w, src.width, sx, self.width, dx),
                h as int == blit_extent(old_h, src.height, sy, self.height, dy),
                ss == src.stride as int,
                sh == src.height as int,
                h > 0 ==> (sy + h - 1) * ss + sx * 3 <= u32::MAX && (dy + h - 1) * ds + dx * 3
                    <= u32::MAX,
                row <= h,
                self.data@.len() == old_data.len(),
                forall|r: int, b: int|
                    0 <= r < dh && 0 <= b < ds ==> #[trigger] at(self.data@, ds, r, b) == if dy <= r
                        < dy + row && 3 * dx <= b < 3 * dx + 3 * w {
                        at(src.data@, ss, sy + (r - dy), 3 * sx + (b - 3 * dx))
                    } else {
                        at(old_data, ds, r, b)
                    },
            decreases h - row,
        {
            proof {
                assert((sy + row) * ss <= (sy + h - 1) * ss) by (nonlinear_arith)
                    requires
                        row < h,
                        ss >= 0,
                ;
                assert((dy + row) * ds <= (dy + h - 1) * ds) by (nonlinear_arith)
                    requires
                        row < h,
                        ds >= 0,
                ;
                if w > 0 {
                    lemma_index_bounds(ss, sh, (sy + row) as int, 3 * (sx + w) - 1);
                    lemma_index_bounds(ds, dh, (dy + row) as int, 3 * (dx + w) - 1);
                }
            }
            let s = ((sy + row) * src.stride + sx * 3) as usize;
            let d = ((dy + row) * self.stride + dx * 3) as usize;
            let n = (w * 3) as usize;
            let mut k: usize = 0;
            let ghost before_row = self.data@;
            while k < n
                invariant
                    self.wf(),
                    self.stride == ds,
                    self.height == dh,
                    self.width == old(self).width,
                    k <= n,
                    n == 3 * w,
                    d == (dy + row) * ds + 3 * dx,
                    s == (sy + row) * ss + 3 * sx,
                    src.wf(),
                    n > 0 ==> d + n <= self.data@.len(),
                    n > 0 ==> s + n <= src.data@.len(),
                    before_row.len() == old_data.len(),
                    forall|r: int, b: int|
                        0 <= r < dh && 0 <= b < ds ==> #[trigger] at(before_row, ds, r, b) == if dy
                            <= r < dy + row && 3 * dx <= b < 3 * dx + 3 * w {
                            at(src.data@, ss, sy + (r - dy), 3 * sx + (b - 3 * dx))
                        } else {
                            at(old_data, ds, r, b)
                        },
                    self.data@.len() == old_data.len(),
                    forall|i: int|
                        0 <= i < self.data@.len() ==> #[trigger] self.data@[i] == if d <= i < d + k {
                            src.data@[s + (i - d)]
                        } else {
                            before_row[i]
                        },
                decreases n - k,
            {
                let v = src.data[s + k];
                self.data.set(d + k, v);
                k = k + 1;
            }
            proof {
                assert forall|r: int, b: int|
                    0 <= r < dh && 0 <= b < ds implies #[trigger] at(self.data@, ds, r, b) == if dy
                    <= r < dy + row + 1 && 3 * dx <= b < 3 * dx + 3 * w {
                    at(src.data@, ss, sy + (r - dy), 3 * sx + (b - 3 * dx))
                } else {
                    at(old_data, ds, r, b)
                } by {
                    lemma_index_bounds(ds, dh, r, b);
                    let i = r * ds + b;
                    if r == dy + row && 3 * dx <= b < 3 * dx + 3 * w {
                        assert(i - d == b - 3 * dx);
                        assert(self.data@[i] == src.data@[s + (i - d)]);
                        assert(s + (i - d) == (sy + (r - dy)) * ss + (3 * sx + (b - 3 * dx)));
                    } else {
                        if d <= i < d + n {
                            lemma_index_unique(ds, r, b, (dy + row) as int, 3 * dx + (i - d));
                        }
                        assert(self.data@[i] == before_row[i]);
                        assert(at(before_row, ds, r, b) == before_row[i]);
                    }
                }
            }
            row = row + 1;
        }
    }
}

/// How many rows (or columns) a blit copies: the requested count, clipped to
/// what is left of the source past its offset and of the target past its offset.
pub open spec fn blit_extent(n: u32, src_len: u32, s: u32, dst_len: u32, d: u32) -> int {
    min(min(n as int, if s < src_len { src_len - s } else { 0 }), if d < dst_len {
        dst_len - d
    } else {
        0
    })
}

fn min_u32(a: u32, b: u32) -> (r: u32)
    ensures
        r as int == min(a as int, b as int),
{
    if a < b {
        a
    } else {
        b
    }
}

} // verus!
