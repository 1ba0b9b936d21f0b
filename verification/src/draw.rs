//! UI drawing primitives on integer coordinates: clipped pixel plotting and
//! the chrome's line-art icons.
use vstd::prelude::*;

use crate::framebuffer::{at, component, painted, Framebuffer, Pixel};

verus! {

// ── Pixels set by a drawing ──────────────────────────────────────────────────

/// `new` is `old` with every in-bounds pixel `(x, y)` satisfying `shape` set
/// to `color`; all other bytes (padding included) are unchanged.
pub open spec fn drawn(
    old: Seq<u8>,
    new: Seq<u8>,
    stride: int,
    width: int,
    height: int,
    shape: spec_fn(int, int) -> bool,
    color: Pixel,
) -> bool {
    &&& new.len() == old.len()
    &&& forall|r: int, b: int|
        0 <= r < height && 0 <= b < stride ==> #[trigger] at(new, stride, r, b) == if b < 3 * width
            && shape(b / 3, r) {
            component(color, b)
        } else {
            at(old, stride, r, b)
        }
}

/// `fb1` is `fb0` with `shape` drawn in `color`.
pub open spec fn draws(fb0: Framebuffer, fb1: Framebuffer, shape: spec_fn(int, int) -> bool, color: Pixel) -> bool {
    &&& fb1.wf()
    &&& fb1.width == fb0.width
    &&& fb1.height == fb0.height
    &&& fb1.stride == fb0.stride
    &&& drawn(
        fb0.data@,
        fb1.data@,
        fb0.stride as int,
        fb0.width as int,
        fb0.height as int,
        shape,
        color,
    )
}

/// Nothing drawn yet.
pub open spec fn no_shape() -> spec_fn(int, int) -> bool {
    |x: int, y: int| false
}

proof fn lemma_drawn_nothing(fb: Framebuffer, color: Pixel)
    requires
        fb.wf(),
    ensures
        draws(fb, fb, no_shape(), color),
{
}

/// Plotting one more point extends what was drawn by that point.
proof fn lemma_drawn_plot(
    fb0: Framebuffer,
    fb1: Framebuffer,
    fb2: Framebuffer,
    shape: spec_fn(int, int) -> bool,
    next: spec_fn(int, int) -> bool,
    x: int,
    y: int,
    color: Pixel,
)
    requires
        fb0.wf(),
        draws(fb0, fb1, shape, color),
        draws(fb1, fb2, |a: int, b: int| a == x && b == y, color),
        forall|a: int, b: int| #[trigger] next(a, b) == (shape(a, b) || (a == x && b == y)),
    ensures
        draws(fb0, fb2, next, color),
{
    assert forall|r: int, b: int| 0 <= r < fb0.height && 0 <= b < fb0.stride implies #[trigger] at(
        fb2.data@,
        fb0.stride as int,
        r,
        b,
    ) == if b < 3 * fb0.width && next(b / 3, r) {
        component(color, b)
    } else {
        at(fb0.data@, fb0.stride as int, r, b)
    } by {
        assert(at(fb1.data@, fb0.stride as int, r, b) == if b < 3 * fb0.width && shape(b / 3, r) {
            component(color, b)
        } else {
            at(fb0.data@, fb0.stride as int, r, b)
        });
        assert(next(b / 3, r) == (shape(b / 3, r) || (b / 3 == x && r == y)));
    }
}

/// Two descriptions of the same point set draw the same.
proof fn lemma_drawn_same(
    fb0: Framebuffer,
    fb1: Framebuffer,
    s1: spec_fn(int, int) -> bool,
    s2: spec_fn(int, int) -> bool,
    color: Pixel,
)
    requires
        draws(fb0, fb1, s1, color),
        forall|a: int, b: int| #[trigger] s1(a, b) == s2(a, b),
    ensures
        draws(fb0, fb1, s2, color),
{
    assert forall|r: int, b: int| 0 <= r < fb0.height && 0 <= b < fb0.stride implies #[trigger] at(
        fb1.data@,
        fb0.stride as int,
        r,
        b,
    ) == if b < 3 * fb0.width && s2(b / 3, r) {
        component(color, b)
    } else {
        at(fb0.data@, fb0.stride as int, r, b)
    } by {
        assert(s1(b / 3, r) == s2(b / 3, r));
    }
}

/// Safe pixel plot on wide signed coordinates: negative ones are clipped, as
/// are those past the framebuffer.
fn plot(fb: &mut Framebuffer, x: i64, y: i64, color: Pixel)
    requires
        old(fb).wf(),
    ensures
        draws(*old(fb), *final(fb), |a: int, b: int| a == x && b == y, color),
{
    let ghost f0 = *fb;
    let ghost shape = |a: int, b: int| a == x && b == y;
    if 0 <= x && x <= u32::MAX as i64 && 0 <= y && y <= u32::MAX as i64 {
        fb.set_pixel(x as u32, y as u32, color);
        proof {
            if x < f0.width && y < f0.height {
                assert forall|r: int, b: int| 0 <= r < f0.height && 0 <= b < f0.stride implies #[trigger] at(
                    fb.data@,
                    f0.stride as int,
                    r,
                    b,
                ) == if b < 3 * f0.width && shape(b / 3, r) {
                    component(color, b)
                } else {
                    at(f0.data@, f0.stride as int, r, b)
                } by {
                    if b < 3 * f0.width && r == y {
                        assert((3 * x <= b < 3 * (x + 1)) == (b / 3 == x));
                    }
                }
            } else {
                assert forall|r: int, b: int| 0 <= r < f0.height && 0 <= b < f0.stride implies #[trigger] at(
                    fb.data@,
                    f0.stride as int,
                    r,
                    b,
                ) == if b < 3 * f0.width && shape(b / 3, r) {
                    component(color, b)
                } else {
                    at(f0.data@, f0.stride as int, r, b)
                } by {}
            }
        }
    } else {
        assert forall|r: int, b: int| 0 <= r < f0.height && 0 <= b < f0.stride implies #[trigger] at(
            fb.data@,
            f0.stride as int,
            r,
            b,
        ) == if b < 3 * f0.width && shape(b / 3, r) {
            component(color, b)
        } else {
            at(f0.data@, f0.stride as int, r, b)
        } by {}
    }
}

/// Safe pixel plot on signed coordinates: negative ones are clipped, as are
/// those past the framebuffer.
fn sp(fb: &mut Framebuffer, x: i32, y: i32, color: Pixel)
    requires
        old(fb).wf(),
    ensures
        draws(*old(fb), *final(fb), |a: int, b: int| a == x && b == y, color),
{
    plot(fb, x as i64, y as i64, color);
    proof {
        lemma_drawn_same(
            *old(fb),
            *fb,
            |a: int, b: int| a == (x as i64) && b == (y as i64),
            |a: int, b: int| a == x && b == y,
            color,
        );
    }
}

/// Two stacked plots: `(x, y)` and `(x + dx, y + dy)`.
fn sp2(fb: &mut Framebuffer, x: i32, y: i32, dx: i32, dy: i32, color: Pixel)
    requires
        old(fb).wf(),
        i32::MIN <= x + dx <= i32::MAX,
        i32::MIN <= y + dy <= i32::MAX,
    ensures
        draws(
            *old(fb),
            *final(fb),
            |a: int, b: int| (a == x && b == y) || (a == x + dx && b == y + dy),
            color,
        ),
{
    let ghost f0 = *fb;
    sp(fb, x, y, color);
    let ghost f1 = *fb;
    sp(fb, x + dx, y + dy, color);
    proof {
        lemma_drawn_nothing(f0, color);
        lemma_drawn_plot(f0, f0, f1, no_shape(), |a: int, b: int| a == x && b == y, x as int, y as int, color);
        lemma_drawn_plot(
            f0,
            f1,
            *fb,
            |a: int, b: int| a == x && b == y,
            |a: int, b: int| (a == x && b == y) || (a == x + dx && b == y + dy),
            x + dx,
            y + dy,
            color,
        );
    }
}

// ── Icons ────────────────────────────────────────────────────────────────────

/// A coordinate as `u32 as i32` reads it.
pub open spec fn as_i32(v: u32) -> int {
    if v <= i32::MAX {
        v as int
    } else {
        v - 0x1_0000_0000
    }
}

fn to_i32(v: u32) -> (r: i32)
    ensures
        r as int == as_i32(v),
{
    let r: i32 = #[verifier::truncate] (v as i32);
    assert(r as int == as_i32(v)) by (bit_vector)
        requires
            r == #[verifier::truncate] (v as i32),
    ;
    r
}

/// Coordinates `c - m ..= c + m + 1` stay within `i32`.
pub open spec fn fits_around(c: u32, m: int) -> bool {
    i32::MIN <= as_i32(c) - m - 1 && as_i32(c) + m + 1 <= i32::MAX
}

/// The close icon: an X of two diagonals, each two pixels wide.
pub open spec fn close_shape(cx: int, cy: int, s: int) -> spec_fn(int, int) -> bool {
    |x: int, y: int|
        -s <= y - cy <= s && (x - cx - (y - cy) == 0 || x - cx - (y - cy) == 1 || x - cx + (y - cy) == 0
            || x - cx + (y - cy) == 1)
}

/// Close icon — X, 2px thick.
pub fn draw_icon_close(fb: &mut Framebuffer, cx: u32, cy: u32, size: u32, color: Pixel)
    requires
        old(fb).wf(),
        fits_around(cx, (size / 2) as int),
        fits_around(cy, (size / 2) as int),
    ensures
        draws(*old(fb), *final(fb), close_shape(as_i32(cx), as_i32(cy), (size / 2) as int), color),
{
    let s = (size / 2) as i32;
    let x0 = to_i32(cx);
    let y0 = to_i32(cy);
    let ghost f0 = *fb;
    proof {
        lemma_drawn_nothing(f0, color);
    }
    let mut i = -s;
    while i <= s
        invariant
            -s <= i <= s + 1,
            f0.wf(),
            x0 - s - 1 >= i32::MIN,
            x0 + s + 1 <= i32::MAX,
            y0 - s - 1 >= i32::MIN,
            y0 + s + 1 <= i32::MAX,
            draws(f0, *fb, |x: int, y: int| close_shape(x0 as int, y0 as int, s as int)(x, y) && y - y0 < i, color),
        decreases s + 1 - i,
    {
        let ghost g0 = *fb;
        let ghost before = |x: int, y: int| close_shape(x0 as int, y0 as int, s as int)(x, y) && y - y0 < i;
        sp2(fb, x0 + i, y0 + i, 1, 0, color);
        let ghost g1 = *fb;
        sp2(fb, x0 - i, y0 + i, 1, 0, color);
        proof {
            let mid = |x: int, y: int| before(x, y) || ((x == x0 + i && y == y0 + i) || (x == x0 + i + 1 && y == y0 + i));
            let after = |x: int, y: int| close_shape(x0 as int, y0 as int, s as int)(x, y) && y - y0 < i + 1;
            lemma_drawn_union(f0, g0, g1, before, |x: int, y: int| (x == x0 + i && y == y0 + i) || (x == x0 + i + 1 && y == y0 + i), mid, color);
            lemma_drawn_union(f0, g1, *fb, mid, |x: int, y: int| (x == x0 - i && y == y0 + i) || (x == x0 - i + 1 && y == y0 + i), after, color);
        }
        i = i + 1;
    }
    proof {
        lemma_drawn_same(f0, *fb, |x: int, y: int| close_shape(x0 as int, y0 as int, s as int)(x, y) && y - y0 < i, close_shape(as_i32(cx), as_i32(cy), (size / 2) as int), color);
    }
}

/// Drawing a second shape after a first draws their union.
proof fn lemma_drawn_union(
    fb0: Framebuffer,
    fb1: Framebuffer,
    fb2: Framebuffer,
    first: spec_fn(int, int) -> bool,
    second: spec_fn(int, int) -> bool,
    both: spec_fn(int, int) -> bool,
    color: Pixel,
)
    requires
        fb0.wf(),
        draws(fb0, fb1, first, color),
        draws(fb1, fb2, second, color),
        forall|a: int, b: int| #[trigger] both(a, b) == (first(a, b) || second(a, b)),
    ensures
        draws(fb0, fb2, both, color),
{
    assert forall|r: int, b: int| 0 <= r < fb0.height && 0 <= b < fb0.stride implies #[trigger] at(
        fb2.data@,
        fb0.stride as int,
        r,
        b,
    ) == if b < 3 * fb0.width && both(b / 3, r) {
        component(color, b)
    } else {
        at(fb0.data@, fb0.stride as int, r, b)
    } by {
        assert(at(fb1.data@, fb0.stride as int, r, b) == if b < 3 * fb0.width && first(b / 3, r) {
            component(color, b)
        } else {
            at(fb0.data@, fb0.stride as int, r, b)
        });
        assert(both(b / 3, r) == (first(b / 3, r) || second(b / 3, r)));
    }
}


/// A chevron's arms: column `cx - dir * i` for `0 <= i <= s` holds rows
/// `cy - (s - i)`, the one below it, `cy + (s - i)` and the one below it
/// (`dir` is 1 for back, -1 for forward).
pub open spec fn chevron_shape(cx: int, cy: int, s: int, dir: int) -> spec_fn(int, int) -> bool {
    |x: int, y: int|
        {
            let i = dir * (cx - x);
            0 <= i <= s && (y == cy - (s - i) || y == cy - (s - i) + 1 || y == cy + (s - i) || y == cy
                + (s - i) + 1)
        }
}

fn draw_chevron(fb: &mut Framebuffer, cx: u32, cy: u32, size: u32, dir: i32, color: Pixel)
    requires
        old(fb).wf(),
        dir == 1 || dir == -1,
        fits_around(cx, (size / 2) as int),
        fits_around(cy, (size / 2) as int),
    ensures
        draws(*old(fb), *final(fb), chevron_shape(as_i32(cx), as_i32(cy), (size / 2) as int, dir as int), color),
{
    let s = (size / 2) as i32;
    let x0 = to_i32(cx);
    let y0 = to_i32(cy);
    let ghost f0 = *fb;
    let ghost shape = chevron_shape(x0 as int, y0 as int, s as int, dir as int);
    proof {
        lemma_drawn_nothing(f0, color);
        lemma_drawn_same(f0, f0, no_shape(), |x: int, y: int| shape(x, y) && dir * (x0 - x) < 0, color);
    }
    let mut i: i32 = 0;
    while i <= s
        invariant
            0 <= i <= s + 1,
            dir == 1 || dir == -1,
            f0.wf(),
            x0 - s - 1 >= i32::MIN,
            x0 + s + 1 <= i32::MAX,
            y0 - s - 1 >= i32::MIN,
            y0 + s + 1 <= i32::MAX,
            shape == chevron_shape(x0 as int, y0 as int, s as int, dir as int),
            draws(f0, *fb, |x: int, y: int| shape(x, y) && dir * (x0 - x) < i, color),
        decreases s + 1 - i,
    {
        let ghost g0 = *fb;
        let ghost before = |x: int, y: int| shape(x, y) && dir * (x0 - x) < i;
        let x = x0 - dir * i;
        sp2(fb, x, y0 - (s - i), 0, 1, color);
        let ghost g1 = *fb;
        sp2(fb, x, y0 + (s - i), 0, 1, color);
        proof {
            let first = |a: int, b: int| (a == x && b == y0 - (s - i)) || (a == x + 0 && b == y0 - (s - i) + 1);
            let second = |a: int, b: int| (a == x && b == y0 + (s - i)) || (a == x + 0 && b == y0 + (s - i) + 1);
            let mid = |a: int, b: int| before(a, b) || first(a, b);
            let after = |a: int, b: int| shape(a, b) && dir * (x0 - a) < i + 1;
            lemma_drawn_union(f0, g0, g1, before, first, mid, color);
            assert forall|a: int, b: int| #[trigger] after(a, b) == (mid(a, b) || second(a, b)) by {
                if a == x {
                    assert(dir * (x0 - a) == i) by (nonlinear_arith)
                        requires
                            a == x0 - dir * i,
                            dir == 1 || dir == -1,
                    ;
                } else {
                    assert(dir * (x0 - a) != i) by (nonlinear_arith)
                        requires
                            a != x0 - dir * i,
                            dir == 1 || dir == -1,
                    ;
                }
            }
            lemma_drawn_union(f0, g1, *fb, mid, second, after, color);
        }
        i = i + 1;
    }
    proof {
        assert forall|a: int, b: int| #[trigger] shape(a, b) == (shape(a, b) && dir * (x0 - a) < i) by {}
        lemma_drawn_same(f0, *fb, |x: int, y: int| shape(x, y) && dir * (x0 - x) < i, shape, color);
    }
}

/// Back (left chevron) icon — 2px thick.
pub fn draw_icon_back(fb: &mut Framebuffer, cx: u32, cy: u32, size: u32, color: Pixel)
    requires
        old(fb).wf(),
        fits_around(cx, (size / 2) as int),
        fits_around(cy, (size / 2) as int),
    ensures
        draws(*old(fb), *final(fb), chevron_shape(as_i32(cx), as_i32(cy), (size / 2) as int, 1), color),
{
    draw_chevron(fb, cx, cy, size, 1, color);
}

/// Forward (right chevron) icon — 2px thick.
pub fn draw_icon_forward(fb: &mut Framebuffer, cx: u32, cy: u32, size: u32, color: Pixel)
    requires
        old(fb).wf(),
        fits_around(cx, (size / 2) as int),
        fits_around(cy, (size / 2) as int),
    ensures
        draws(*old(fb), *final(fb), chevron_shape(as_i32(cx), as_i32(cy), (size / 2) as int, -1), color),
{
    draw_chevron(fb, cx, cy, size, -1, color);
}


/// Plots a horizontal run `x0..=x1` on row `y`.
fn hrun(fb: &mut Framebuffer, x0: i32, x1: i32, y: i32, color: Pixel)
    requires
        old(fb).wf(),
        x1 < i32::MAX,
    ensures
        draws(*old(fb), *final(fb), |a: int, b: int| b == y && x0 <= a <= x1, color),
{
    let ghost f0 = *fb;
    proof {
        lemma_drawn_nothing(f0, color);
        lemma_drawn_same(f0, f0, no_shape(), |a: int, b: int| b == y && x0 <= a < x0, color);
    }
    let mut x = x0;
    while x <= x1
        invariant
            x0 <= x,
            x <= x1 + 1 || x == x0,
            x1 < i32::MAX,
            f0.wf(),
            draws(f0, *fb, |a: int, b: int| b == y && x0 <= a < x, color),
        decreases x1 + 1 - x,
    {
        let ghost g0 = *fb;
        sp(fb, x, y, color);
        proof {
            lemma_drawn_plot(
                f0,
                g0,
                *fb,
                |a: int, b: int| b == y && x0 <= a < x,
                |a: int, b: int| b == y && x0 <= a < x + 1,
                x as int,
                y as int,
                color,
            );
        }
        x = x + 1;
    }
    proof {
        lemma_drawn_same(f0, *fb, |a: int, b: int| b == y && x0 <= a < x, |a: int, b: int| b == y && x0 <= a <= x1, color);
    }
}

/// Plots a vertical run `y0..=y1` in column `x`.
fn vrun(fb: &mut Framebuffer, x: i32, y0: i32, y1: i32, color: Pixel)
    requires
        old(fb).wf(),
        y1 < i32::MAX,
    ensures
        draws(*old(fb), *final(fb), |a: int, b: int| a == x && y0 <= b <= y1, color),
{
    let ghost f0 = *fb;
    proof {
        lemma_drawn_nothing(f0, color);
        lemma_drawn_same(f0, f0, no_shape(), |a: int, b: int| a == x && y0 <= b < y0, color);
    }
    let mut y = y0;
    while y <= y1
        invariant
            y0 <= y,
            y <= y1 + 1 || y == y0,
            y1 < i32::MAX,
            f0.wf(),
            draws(f0, *fb, |a: int, b: int| a == x && y0 <= b < y, color),
        decreases y1 + 1 - y,
    {
        let ghost g0 = *fb;
        sp(fb, x, y, color);
        proof {
            lemma_drawn_plot(
                f0,
                g0,
                *fb,
                |a: int, b: int| a == x && y0 <= b < y,
                |a: int, b: int| a == x && y0 <= b < y + 1,
                x as int,
                y as int,
                color,
            );
        }
        y = y + 1;
    }
    proof {
        lemma_drawn_same(f0, *fb, |a: int, b: int| a == x && y0 <= b < y, |a: int, b: int| a == x && y0 <= b <= y1, color);
    }
}

/// The plus icon: a horizontal and a vertical bar, each two pixels thick.
pub open spec fn add_shape(cx: int, cy: int, s: int) -> spec_fn(int, int) -> bool {
    |x: int, y: int|
        (cx - s <= x <= cx + s && (y == cy || y == cy + 1)) || (cy - s <= y <= cy + s && (x == cx || x
            == cx + 1))
}

/// Add / new-tab icon — plus.
pub fn draw_icon_add(fb: &mut Framebuffer, cx: u32, cy: u32, size: u32, color: Pixel)
    requires
        old(fb).wf(),
        fits_around(cx, (size / 2) as int),
        fits_around(cy, (size / 2) as int),
    ensures
        draws(*old(fb), *final(fb), add_shape(as_i32(cx), as_i32(cy), (size / 2) as int), color),
{
    let s = (size / 2) as i32;
    let x0 = to_i32(cx);
    let y0 = to_i32(cy);
    let ghost f0 = *fb;
    hrun(fb, x0 - s, x0 + s, y0, color);
    let ghost f1 = *fb;
    hrun(fb, x0 - s, x0 + s, y0 + 1, color);
    let ghost f2 = *fb;
    vrun(fb, x0, y0 - s, y0 + s, color);
    let ghost f3 = *fb;
    vrun(fb, x0 + 1, y0 - s, y0 + s, color);
    proof {
        let a = |x: int, y: int| y == y0 && x0 - s <= x <= x0 + s;
        let b = |x: int, y: int| y == y0 + 1 && x0 - s <= x <= x0 + s;
        let c = |x: int, y: int| x == x0 && y0 - s <= y <= y0 + s;
        let d = |x: int, y: int| x == x0 + 1 && y0 - s <= y <= y0 + s;
        let ab = |x: int, y: int| a(x, y) || b(x, y);
        let abc = |x: int, y: int| ab(x, y) || c(x, y);
        lemma_drawn_union(f0, f1, f2, a, b, ab, color);
        lemma_drawn_union(f0, f2, f3, ab, c, abc, color);
        lemma_drawn_union(f0, f3, *fb, abc, d, add_shape(as_i32(cx), as_i32(cy), (size / 2) as int), color);
    }
}

/// The lock icon: a two-row shackle top with its two legs, over a solid body.
pub open spec fn lock_shape(cx: int, cy: int) -> spec_fn(int, int) -> bool {
    |x: int, y: int|
        (cx - 3 <= x <= cx + 3 && cy - 6 <= y <= cy - 5) || ((x == cx - 4 || x == cx + 4) && cy - 6 <= y
            <= cy - 3) || (cx - 6 <= x <= cx + 6 && cy - 2 <= y <= cy + 5)
}

/// Lock icon — shackle + body.
pub fn draw_icon_lock(fb: &mut Framebuffer, cx: u32, cy: u32, color: Pixel)
    requires
        old(fb).wf(),
        fits_around(cx, 6),
        fits_around(cy, 6),
    ensures
        draws(*old(fb), *final(fb), lock_shape(as_i32(cx), as_i32(cy)), color),
{
    let x0 = to_i32(cx);
    let y0 = to_i32(cy);
    let ghost f0 = *fb;
    hrun(fb, x0 - 3, x0 + 3, y0 - 6, color);
    let ghost f1 = *fb;
    hrun(fb, x0 - 3, x0 + 3, y0 - 5, color);
    let ghost f2 = *fb;
    vrun(fb, x0 - 4, y0 - 6, y0 - 3, color);
    let ghost f3 = *fb;
    vrun(fb, x0 + 4, y0 - 6, y0 - 3, color);
    let ghost f4 = *fb;
    let mut row = y0 - 2;
    let ghost body0 = |x: int, y: int| x0 - 6 <= x <= x0 + 6 && y0 - 2 <= y < y0 - 2;
    proof {
        lemma_drawn_nothing(f4, color);
        lemma_drawn_same(f4, f4, no_shape(), body0, color);
    }
    while row <= y0 + 5
        invariant
            y0 - 2 <= row <= y0 + 6,
            y0 + 6 <= i32::MAX,
            x0 - 7 >= i32::MIN,
            x0 + 7 <= i32::MAX,
            f4.wf(),
            draws(f4, *fb, |x: int, y: int| x0 - 6 <= x <= x0 + 6 && y0 - 2 <= y < row, color),
        decreases y0 + 6 - row,
    {
        let ghost g0 = *fb;
        hrun(fb, x0 - 6, x0 + 6, row, color);
        proof {
            lemma_drawn_union(
                f4,
                g0,
                *fb,
                |x: int, y: int| x0 - 6 <= x <= x0 + 6 && y0 - 2 <= y < row,
                |x: int, y: int| y == row && x0 - 6 <= x <= x0 + 6,
                |x: int, y: int| x0 - 6 <= x <= x0 + 6 && y0 - 2 <= y < row + 1,
                color,
            );
        }
        row = row + 1;
    }
    proof {
        let a = |x: int, y: int| y == y0 - 6 && x0 - 3 <= x <= x0 + 3;
        let b = |x: int, y: int| y == y0 - 5 && x0 - 3 <= x <= x0 + 3;
        let c = |x: int, y: int| x == x0 - 4 && y0 - 6 <= y <= y0 - 3;
        let d = |x: int, y: int| x == x0 + 4 && y0 - 6 <= y <= y0 - 3;
        let e = |x: int, y: int| x0 - 6 <= x <= x0 + 6 && y0 - 2 <= y < row;
        let ab = |x: int, y: int| a(x, y) || b(x, y);
        let abc = |x: int, y: int| ab(x, y) || c(x, y);
        let abcd = |x: int, y: int| abc(x, y) || d(x, y);
        lemma_drawn_union(f0, f1, f2, a, b, ab, color);
        lemma_drawn_union(f0, f2, f3, ab, c, abc, color);
        lemma_drawn_union(f0, f3, f4, abc, d, abcd, color);
        lemma_drawn_union(f0, f4, *fb, abcd, e, lock_shape(as_i32(cx), as_i32(cy)), color);
    }
}

pub open spec fn abs(v: int) -> int {
    if v < 0 {
        -v
    } else {
        v
    }
}

/// The star icon: a filled diamond, or its outline.
pub open spec fn star_shape(cx: int, cy: int, s: int, filled: bool) -> spec_fn(int, int) -> bool {
    |x: int, y: int|
        if filled {
            abs(x - cx) + abs(y - cy) <= s
        } else {
            abs(x - cx) + abs(y - cy) == s
        }
}

/// Star / bookmark icon.
pub fn draw_icon_star(fb: &mut Framebuffer, cx: u32, cy: u32, size: u32, color: Pixel, filled: bool)
    requires
        old(fb).wf(),
        fits_around(cx, (size / 2) as int),
        fits_around(cy, (size / 2) as int),
    ensures
        draws(*old(fb), *final(fb), star_shape(as_i32(cx), as_i32(cy), (size / 2) as int, filled), color),
{
    let s = (size / 2) as i32;
    let x0 = to_i32(cx);
    let y0 = to_i32(cy);
    let ghost f0 = *fb;
    let ghost shape = star_shape(x0 as int, y0 as int, s as int, filled);
    if filled {
        let mut dy = -s;
        proof {
            lemma_drawn_nothing(f0, color);
            lemma_drawn_same(f0, f0, no_shape(), |x: int, y: int| shape(x, y) && y - y0 < dy, color);
        }
        while dy <= s
            invariant
                -s <= dy <= s + 1,
                filled,
                f0.wf(),
                x0 - s - 1 >= i32::MIN,
                x0 + s + 1 <= i32::MAX,
                y0 - s - 1 >= i32::MIN,
                y0 + s + 1 <= i32::MAX,
                shape == star_shape(x0 as int, y0 as int, s as int, filled),
                draws(f0, *fb, |x: int, y: int| shape(x, y) && y - y0 < dy, color),
            decreases s + 1 - dy,
        {
            let ghost g0 = *fb;
            let ady = if dy < 0 {
                -dy
            } else {
                dy
            };
            let dx = s - ady;
            hrun(fb, x0 - dx, x0 + dx, y0 + dy, color);
            proof {
                lemma_drawn_union(
                    f0,
                    g0,
                    *fb,
                    |x: int, y: int| shape(x, y) && y - y0 < dy,
                    |x: int, y: int| y == y0 + dy && x0 - dx <= x <= x0 + dx,
                    |x: int, y: int| shape(x, y) && y - y0 < dy + 1,
                    color,
                );
            }
            dy = dy + 1;
        }
        proof {
            lemma_drawn_same(f0, *fb, |x: int, y: int| shape(x, y) && y - y0 < dy, shape, color);
        }
    } else {
        let mut i: i32 = 0;
        proof {
            lemma_drawn_nothing(f0, color);
            lemma_drawn_same(f0, f0, no_shape(), |x: int, y: int| shape(x, y) && abs(x - x0) < i, color);
        }
        while i <= s
            invariant
                0 <= i <= s + 1,
                !filled,
                f0.wf(),
                x0 - s - 1 >= i32::MIN,
                x0 + s + 1 <= i32::MAX,
                y0 - s - 1 >= i32::MIN,
                y0 + s + 1 <= i32::MAX,
                shape == star_shape(x0 as int, y0 as int, s as int, filled),
                draws(f0, *fb, |x: int, y: int| shape(x, y) && abs(x - x0) < i, color),
            decreases s + 1 - i,
        {
            let ghost g0 = *fb;
            sp(fb, x0 - i, y0 - (s - i), color);
            let ghost g1 = *fb;
            sp(fb, x0 + i, y0 - (s - i), color);
            let ghost g2 = *fb;
            sp(fb, x0 - i, y0 + (s - i), color);
            let ghost g3 = *fb;
            sp(fb, x0 + i, y0 + (s - i), color);
            proof {
                let p0 = |x: int, y: int| shape(x, y) && abs(x - x0) < i;
                let q1 = |x: int, y: int| x == x0 - i && y == y0 - (s - i);
                let q2 = |x: int, y: int| x == x0 + i && y == y0 - (s - i);
                let q3 = |x: int, y: int| x == x0 - i && y == y0 + (s - i);
                let q4 = |x: int, y: int| x == x0 + i && y == y0 + (s - i);
                let p1 = |x: int, y: int| p0(x, y) || q1(x, y);
                let p2 = |x: int, y: int| p1(x, y) || q2(x, y);
                let p3 = |x: int, y: int| p2(x, y) || q3(x, y);
                let p4 = |x: int, y: int| shape(x, y) && abs(x - x0) < i + 1;
                lemma_drawn_union(f0, g0, g1, p0, q1, p1, color);
                lemma_drawn_union(f0, g1, g2, p1, q2, p2, color);
                lemma_drawn_union(f0, g2, g3, p2, q3, p3, color);
                lemma_drawn_union(f0, g3, *fb, p3, q4, p4, color);
            }
            i = i + 1;
        }
        proof {
            lemma_drawn_same(f0, *fb, |x: int, y: int| shape(x, y) && abs(x - x0) < i, shape, color);
        }
    }
}


// ── Rounded outline ──────────────────────────────────────────────────────────

/// Whether the midpoint circle walk from `(x, y)` with decision value `d`
/// plots the offset `(a, b)`: each step, while `x >= y`, plots `(x, y)` and
/// `(y, x)`, moves `y` down one row and, when `d` is positive, `x` in one
/// column.
pub open spec fn on_arc(x: int, y: int, d: int, a: int, b: int) -> bool
    decreases x - y + 2,
{
    if x < y {
        false
    } else {
        let y1 = y + 1;
        let x1 = if d <= 0 {
            x
        } else {
            x - 1
        };
        let d1 = if d <= 0 {
            d + 2 * y1 + 1
        } else {
            d + 2 * (y1 - x1) + 1
        };
        (a == x && b == y) || (a == y && b == x) || on_arc(x1, y1, d1, a, b)
    }
}

/// Offset of column `px` from a corner centre `cx`, as quadrant `quad` (0
/// top-left, 1 top-right, 2 bottom-left, 3 bottom-right) measures it.
pub open spec fn quad_dx(cx: int, px: int, quad: u8) -> int {
    if quad == 0 || quad == 2 {
        cx - px
    } else {
        px - cx
    }
}

pub open spec fn quad_dy(cy: int, py: int, quad: u8) -> int {
    if quad == 0 || quad == 1 {
        cy - py
    } else {
        py - cy
    }
}

/// The corner arc of radius `r` around `(cx, cy)` in quadrant `quad`; a
/// radius that is not positive gives the centre point alone.
pub open spec fn quarter_arc(cx: int, cy: int, r: int, quad: u8) -> spec_fn(int, int) -> bool {
    |px: int, py: int|
        if r <= 0 {
            px == cx && py == cy
        } else {
            on_arc(r, 0, 1 - r, quad_dx(cx, px, quad), quad_dy(cy, py, quad))
        }
}

/// The radius actually used: at most half the width and half the height.
pub open spec fn clamp_radius(w: int, h: int, r: int) -> int {
    let a = if r < w / 2 {
        r
    } else {
        w / 2
    };
    if a < h / 2 {
        a
    } else {
        h / 2
    }
}

/// The four straight edges of a rounded outline.
pub open spec fn outline_edges(x: int, y: int, w: int, h: int, r: int) -> spec_fn(int, int) -> bool {
    |px: int, py: int|
        (x + r <= px < x + w - r && (py == y || py == y + h - 1)) || (y + r <= py < y + h - r && (px
            == x || px == x + w - 1))
}

/// The border of a `w`×`h` rectangle at `(x, y)` with corners of radius `r`:
/// nothing when either side is not positive.
pub open spec fn rounded_outline_shape(x: int, y: int, w: int, h: int, r0: int) -> spec_fn(int, int) -> bool {
    let r = clamp_radius(w, h, r0);
    |px: int, py: int|
        w > 0 && h > 0 && (outline_edges(x, y, w, h, r)(px, py) || quarter_arc(x + r, y + r, r, 0)(px, py)
            || quarter_arc(x + w - r - 1, y + r, r, 1)(px, py) || quarter_arc(x + r, y + h - r - 1, r, 2)(
            px,
            py,
        ) || quarter_arc(x + w - r - 1, y + h - r - 1, r, 3)(px, py))
}

/// The walk's decision value in closed form.
pub open spec fn arc_decision(x: int, y: int, r: int) -> int {
    (y + 1) * (y + 1) + x * x - x - r * r
}

proof fn lemma_arc_step(x: int, y: int, r: int)
    ensures
        arc_decision(x, y + 1, r) == arc_decision(x, y, r) + 2 * (y + 1) + 1,
        arc_decision(x - 1, y + 1, r) == arc_decision(x, y, r) + 2 * ((y + 1) - (x - 1)) + 1,
{
    assert((y + 2) * (y + 2) == (y + 1) * (y + 1) + 2 * (y + 1) + 1) by (nonlinear_arith);
    assert((x - 1) * (x - 1) == x * x - 2 * x + 1) by (nonlinear_arith);
}

proof fn lemma_arc_bound(x: int, y: int, r: int)
    requires
        0 < r < 0x4000_0000,
        -2 <= x <= r,
        0 <= y <= r + 2,
    ensures
        -0x4000_0000_0000_0000 < arc_decision(x, y, r) < 0x4000_0000_0000_0000,
{
    let m: int = 0x4000_0003;
    assert(0 <= (y + 1) * (y + 1) <= m * m) by (nonlinear_arith)
        requires
            0 <= y + 1 <= m,
    ;
    assert(0 <= x * x <= m * m) by (nonlinear_arith)
        requires
            -m <= x <= m,
    ;
    assert(0 <= r * r <= m * m) by (nonlinear_arith)
        requires
            0 <= r <= m,
    ;
    assert(m * m == 0x1000_0001_8000_0009);
}

/// One corner arc of an outline, by the midpoint circle walk.
fn outline_quarter_circle(fb: &mut Framebuffer, cx: i64, cy: i64, r: i64, quad: u8, color: Pixel)
    requires
        old(fb).wf(),
        -0x4_0000_0000 <= cx <= 0x4_0000_0000,
        -0x4_0000_0000 <= cy <= 0x4_0000_0000,
        r < 0x4000_0000,
    ensures
        draws(*old(fb), *final(fb), quarter_arc(cx as int, cy as int, r as int, quad), color),
{
    let ghost f0 = *fb;
    if r <= 0 {
        plot(fb, cx, cy, color);
        proof {
            lemma_drawn_same(
                f0,
                *fb,
                |a: int, b: int| a == cx && b == cy,
                quarter_arc(cx as int, cy as int, r as int, quad),
                color,
            );
        }
        return;
    }
    let mut x: i64 = r;
    let mut y: i64 = 0;
    let mut d: i64 = 1 - r;
    let ghost mut seen: spec_fn(int, int) -> bool = no_shape();
    proof {
        lemma_drawn_nothing(f0, color);
        lemma_drawn_same(
            f0,
            f0,
            no_shape(),
            |px: int, py: int| seen(quad_dx(cx as int, px, quad), quad_dy(cy as int, py, quad)),
            color,
        );
    }
    while x >= y
        invariant
            f0.wf(),
            f0 == *old(fb),
            -0x4_0000_0000 <= cx <= 0x4_0000_0000,
            -0x4_0000_0000 <= cy <= 0x4_0000_0000,
            0 < r < 0x4000_0000,
            -2 <= x <= r,
            0 <= y <= x + 2,
            d == arc_decision(x as int, y as int, r as int),
            forall|a: int, b: int|
                #[trigger] on_arc(r as int, 0, 1 - r, a, b) == (seen(a, b) || on_arc(
                    x as int,
                    y as int,
                    d as int,
                    a,
                    b,
                )),
            draws(
                f0,
                *fb,
                |px: int, py: int| seen(quad_dx(cx as int, px, quad), quad_dy(cy as int, py, quad)),
                color,
            ),
        decreases x - y + 2,
    {
        let (ax, ay) = quad_arc_pt(cx, cy, x, y, quad);
        let (bx, by) = quad_arc_pt(cx, cy, y, x, quad);
        let ghost g0 = *fb;
        plot(fb, ax, ay, color);
        let ghost g1 = *fb;
        plot(fb, bx, by, color);
        proof {
            let s0 = |px: int, py: int| seen(quad_dx(cx as int, px, quad), quad_dy(cy as int, py, quad));
            let seen1 = |a: int, b: int| seen(a, b) || (a == x && b == y) || (a == y && b == x);
            let s1 = |px: int, py: int| s0(px, py) || (px == ax && py == ay);
            let s2 = |px: int, py: int| seen1(quad_dx(cx as int, px, quad), quad_dy(cy as int, py, quad));
            lemma_drawn_plot(f0, g0, g1, s0, s1, ax as int, ay as int, color);
            lemma_drawn_plot(f0, g1, *fb, s1, s2, bx as int, by as int, color);
            seen = seen1;
            lemma_arc_step(x as int, y as int, r as int);
        }
        y = y + 1;
        proof {
            lemma_arc_bound(x as int, y as int, r as int);
        }
        if d <= 0 {
            d = d + 2 * y + 1;
        } else {
            x = x - 1;
            d = d + 2 * (y - x) + 1;
        }
    }
    proof {
        assert forall|px: int, py: int|
            #[trigger] quarter_arc(cx as int, cy as int, r as int, quad)(px, py) == seen(
                quad_dx(cx as int, px, quad),
                quad_dy(cy as int, py, quad),
            ) by {
            assert(on_arc(r as int, 0, 1 - r, quad_dx(cx as int, px, quad), quad_dy(cy as int, py, quad))
                == (seen(quad_dx(cx as int, px, quad), quad_dy(cy as int, py, quad)) || on_arc(
                x as int,
                y as int,
                d as int,
                quad_dx(cx as int, px, quad),
                quad_dy(cy as int, py, quad),
            )));
        }
        lemma_drawn_same(
            f0,
            *fb,
            |px: int, py: int| seen(quad_dx(cx as int, px, quad), quad_dy(cy as int, py, quad)),
            quarter_arc(cx as int, cy as int, r as int, quad),
            color,
        );
    }
}

/// The pixel at offset `(dx, dy)` from `(cx, cy)` in quadrant `quad`.
fn quad_arc_pt(cx: i64, cy: i64, dx: i64, dy: i64, quad: u8) -> (p: (i64, i64))
    requires
        -0x4_0000_0000 <= cx <= 0x4_0000_0000,
        -0x4_0000_0000 <= cy <= 0x4_0000_0000,
        -0x1_0000_0000 <= dx <= 0x1_0000_0000,
        -0x1_0000_0000 <= dy <= 0x1_0000_0000,
    ensures
        quad_dx(cx as int, p.0 as int, quad) == dx,
        quad_dy(cy as int, p.1 as int, quad) == dy,
{
    match quad {
        0 => (cx - dx, cy - dy),
        1 => (cx + dx, cy - dy),
        2 => (cx - dx, cy + dy),
        _ => (cx + dx, cy + dy),
    }
}

/// Outline rounded rectangle (border only).
pub fn draw_rounded_rect_outline(fb: &mut Framebuffer, x: i32, y: i32, w: i32, h: i32, r: i32, color: Pixel)
    requires
        old(fb).wf(),
    ensures
        draws(*old(fb), *final(fb), rounded_outline_shape(x as int, y as int, w as int, h as int, r as int), color),
{
    let ghost f0 = *fb;
    let ghost shape = rounded_outline_shape(x as int, y as int, w as int, h as int, r as int);
    if w <= 0 || h <= 0 {
        proof {
            lemma_drawn_nothing(f0, color);
            lemma_drawn_same(f0, f0, no_shape(), shape, color);
        }
        return;
    }
    let r1 = if r < w / 2 {
        r
    } else {
        w / 2
    };
    let r2 = if r1 < h / 2 {
        r1
    } else {
        h / 2
    };
    let ghost rr = clamp_radius(w as int, h as int, r as int);
    assert(r2 == rr);
    let x = x as i64;
    let y = y as i64;
    let w = w as i64;
    let h = h as i64;
    let r = r2 as i64;
    let ghost edges = outline_edges(x as int, y as int, w as int, h as int, r as int);
    // Top and bottom edges.
    let mut px: i64 = x + r;
    proof {
        lemma_drawn_nothing(f0, color);
        lemma_drawn_same(
            f0,
            f0,
            no_shape(),
            |a: int, b: int| x + r <= a < px && (b == y || b == y + h - 1),
            color,
        );
    }
    while px < x + w - r
        invariant
            f0.wf(),
            -0x8000_0000 <= x < 0x8000_0000,
            -0x8000_0000 <= y < 0x8000_0000,
            0 < w < 0x8000_0000,
            0 < h < 0x8000_0000,
            r <= w / 2,
            r >= -0x8000_0000,
            x + r <= px,
            px <= x + w - r || px == x + r,
            draws(f0, *fb, |a: int, b: int| x + r <= a < px && (b == y || b == y + h - 1), color),
        decreases x + w - r - px,
    {
        let ghost g0 = *fb;
        plot(fb, px, y, color);
        let ghost g1 = *fb;
        plot(fb, px, y + h - 1, color);
        proof {
            let s0 = |a: int, b: int| x + r <= a < px && (b == y || b == y + h - 1);
            let s1 = |a: int, b: int| s0(a, b) || (a == px && b == y);
            let s2 = |a: int, b: int| x + r <= a < px + 1 && (b == y || b == y + h - 1);
            lemma_drawn_plot(f0, g0, g1, s0, s1, px as int, y as int, color);
            lemma_drawn_plot(f0, g1, *fb, s1, s2, px as int, y + h - 1, color);
        }
        px = px + 1;
    }
    let ghost f1 = *fb;
    // Left and right edges.
    let mut py: i64 = y + r;
    proof {
        lemma_drawn_nothing(f1, color);
        lemma_drawn_same(
            f1,
            f1,
            no_shape(),
            |a: int, b: int| y + r <= b < py && (a == x || a == x + w - 1),
            color,
        );
    }
    while py < y + h - r
        invariant
            f1.wf(),
            -0x8000_0000 <= x < 0x8000_0000,
            -0x8000_0000 <= y < 0x8000_0000,
            0 < w < 0x8000_0000,
            0 < h < 0x8000_0000,
            r <= h / 2,
            r >= -0x8000_0000,
            y + r <= py,
            py <= y + h - r || py == y + r,
            draws(f1, *fb, |a: int, b: int| y + r <= b < py && (a == x || a == x + w - 1), color),
        decreases y + h - r - py,
    {
        let ghost g0 = *fb;
        plot(fb, x, py, color);
        let ghost g1 = *fb;
        plot(fb, x + w - 1, py, color);
        proof {
            let s0 = |a: int, b: int| y + r <= b < py && (a == x || a == x + w - 1);
            let s1 = |a: int, b: int| s0(a, b) || (a == x && b == py);
            let s2 = |a: int, b: int| y + r <= b < py + 1 && (a == x || a == x + w - 1);
            lemma_drawn_plot(f1, g0, g1, s0, s1, x as int, py as int, color);
            lemma_drawn_plot(f1, g1, *fb, s1, s2, x + w - 1, py as int, color);
        }
        py = py + 1;
    }
    let ghost f2 = *fb;
    proof {
        lemma_drawn_union(
            f0,
            f1,
            f2,
            |a: int, b: int| x + r <= a < px && (b == y || b == y + h - 1),
            |a: int, b: int| y + r <= b < py && (a == x || a == x + w - 1),
            edges,
            color,
        );
    }
    // Corner arcs.
    outline_quarter_circle(fb, x + r, y + r, r, 0, color);
    let ghost f3 = *fb;
    outline_quarter_circle(fb, x + w - r - 1, y + r, r, 1, color);
    let ghost f4 = *fb;
    outline_quarter_circle(fb, x + r, y + h - r - 1, r, 2, color);
    let ghost f5 = *fb;
    outline_quarter_circle(fb, x + w - r - 1, y + h - r - 1, r, 3, color);
    proof {
        let q0 = quarter_arc(x + r, y + r, r as int, 0);
        let q1 = quarter_arc(x + w - r - 1, y + r, r as int, 1);
        let q2 = quarter_arc(x + r, y + h - r - 1, r as int, 2);
        let q3 = quarter_arc(x + w - r - 1, y + h - r - 1, r as int, 3);
        let e0 = |a: int, b: int| edges(a, b) || q0(a, b);
        let e1 = |a: int, b: int| e0(a, b) || q1(a, b);
        let e2 = |a: int, b: int| e1(a, b) || q2(a, b);
        lemma_drawn_union(f0, f2, f3, edges, q0, e0, color);
        lemma_drawn_union(f0, f3, f4, e0, q1, e1, color);
        lemma_drawn_union(f0, f4, f5, e1, q2, e2, color);
        lemma_drawn_union(f0, f5, *fb, e2, q3, shape, color);
    }
}

} // verus!
