use vstd::prelude::*;

use crate::graphics::{flipped_target, GraphicsContext};

verus! {

pub open spec fn abs_int(v: int) -> int {
    if v < 0 { -v } else { v }
}

/// A line from `(x0, y0)` to `(x1, y1)` set up for stepping: whether it is
/// steep (more rows than columns, so it is stepped along rows), then its
/// endpoints `(a0, b0)` and `(a1, b1)` along the stepped axis and the other,
/// ordered so that `a0 < a1`; a single point is stepped once.
pub open spec fn line_setup(x0: int, y0: int, x1: int, y1: int) -> (bool, int, int, int, int) {
    let steep = abs_int(x0 - x1) < abs_int(y0 - y1);
    let (a0, b0, a1, b1) = if steep { (y0, x0, y1, x1) } else { (x0, y0, x1, y1) };
    let (a0, b0, a1, b1) = if a0 > a1 { (a1, b1, a0, b0) } else { (a0, b0, a1, b1) };
    (steep, a0, b0, if a0 == a1 { a1 + 1 } else { a1 }, b1)
}

/// How many pixels the line sets: one per step along its stepped axis.
pub open spec fn line_len(x0: int, y0: int, x1: int, y1: int) -> int {
    let (_, a0, _, a1, _) = line_setup(x0, y0, x1, y1);
    a1 - a0
}

/// `b0 + (b1 - b0) * k / n`, rounded to the nearest integer, halves away from zero,
/// for non-negative `b0`, `b1`.
pub open spec fn interpolate(b0: int, b1: int, n: int, k: int) -> int {
    (2 * (b0 * (n - k) + b1 * k) + n) / (2 * n)
}

/// The `k`-th pixel of the line, as (column, row).
pub open spec fn line_point(x0: int, y0: int, x1: int, y1: int, k: int) -> (int, int) {
    let (steep, a0, b0, a1, b1) = line_setup(x0, y0, x1, y1);
    let a = a0 + k;
    let b = interpolate(b0, b1, a1 - a0, k);
    if steep { (b, a) } else { (a, b) }
}

/// The buffer after the first `m` pixels of the line were written with
/// the bounds-checked, row-flipped pixel write.
pub open spec fn paint_line(
    pixels: Map<(u32, u32), [u8; 3]>,
    width: u32,
    height: u32,
    x0: int,
    y0: int,
    x1: int,
    y1: int,
    color: [u8; 3],
    m: nat,
) -> Map<(u32, u32), [u8; 3]>
    decreases m,
{
    if m == 0 {
        pixels
    } else {
        let before = paint_line(pixels, width, height, x0, y0, x1, y1, color, (m - 1) as nat);
        let q = line_point(x0, y0, x1, y1, m - 1);
        match flipped_target(width, height, q.0 as i64, q.1 as i64) {
            Some(p) => before.insert(p, color),
            None => before,
        }
    }
}

/// Whether pixel `p` lies in a `width` x `height` image.
pub open spec fn inside(width: u32, height: u32, p: (i64, i64)) -> bool {
    0 <= p.0 < width && 0 <= p.1 < height
}

/// The rounded interpolation stays between zero and the larger end.
proof fn lemma_interpolate_bounds(b0: int, b1: int, n: int, k: int, top: int)
    requires
        0 <= b0 <= top,
        0 <= b1 <= top,
        0 <= k < n,
    ensures
        0 <= interpolate(b0, b1, n, k) <= top,
{
    let num = b0 * (n - k) + b1 * k;
    assert(0 <= b0 * (n - k) <= top * (n - k)) by (nonlinear_arith)
        requires
            0 <= b0 <= top,
            0 <= k < n,
    ;
    assert(0 <= b1 * k <= top * k) by (nonlinear_arith)
        requires
            0 <= b1 <= top,
            0 <= k,
    ;
    assert(top * (n - k) + top * k == top * n) by (nonlinear_arith);
    assert(2 * num + n < 2 * n * (top + 1)) by (nonlinear_arith)
        requires
            num <= top * n,
            n > 0,
    ;
    assert(0 <= (2 * num + n) / (2 * n) <= top) by (nonlinear_arith)
        requires
            0 <= num,
            2 * num + n < 2 * n * (top + 1),
            n > 0,
    ;
}

/// Painting changes a pixel only by writing `color` to it.
proof fn lemma_paint_line_color(
    pixels: Map<(u32, u32), [u8; 3]>,
    width: u32,
    height: u32,
    x0: int,
    y0: int,
    x1: int,
    y1: int,
    color: [u8; 3],
    m: nat,
)
    ensures
        forall|p: (u32, u32)| #[trigger]
            paint_line(pixels, width, height, x0, y0, x1, y1, color, m).contains_key(p) ==> {
                ||| paint_line(pixels, width, height, x0, y0, x1, y1, color, m)[p] == color
                ||| pixels.contains_key(p) && paint_line(pixels, width, height, x0, y0, x1, y1, color, m)[p]
                    == pixels[p]
            },
    decreases m,
{
    if m > 0 {
        let prev = (m - 1) as nat;
        lemma_paint_line_color(pixels, width, height, x0, y0, x1, y1, color, prev);
        let before = paint_line(pixels, width, height, x0, y0, x1, y1, color, prev);
        let after = paint_line(pixels, width, height, x0, y0, x1, y1, color, m);
        assert forall|p: (u32, u32)| #[trigger] after.contains_key(p) implies {
            ||| after[p] == color
            ||| pixels.contains_key(p) && after[p] == pixels[p]
        } by {
            let q = line_point(x0, y0, x1, y1, m - 1);
            match flipped_target(width, height, q.0 as i64, q.1 as i64) {
                Some(t) => {
                    if p != t {
                        assert(before.contains_key(p));
                    }
                },
                None => {
                    assert(before.contains_key(p));
                },
            }
        }
    }
}

/// Every pixel that drawing a line changes ends up with the line's color:
/// a pixel of the result either holds `color` or is what it was before.
pub proof fn lemma_draw_line_writes_only_color(
    pixels: Map<(u32, u32), [u8; 3]>,
    width: u32,
    height: u32,
    x0: int,
    y0: int,
    x1: int,
    y1: int,
    color: [u8; 3],
)
    ensures
        forall|p: (u32, u32)| #[trigger]
            paint_line(pixels, width, height, x0, y0, x1, y1, color, line_len(x0, y0, x1, y1) as nat).contains_key(p)
                ==> {
                ||| paint_line(pixels, width, height, x0, y0, x1, y1, color, line_len(x0, y0, x1, y1) as nat)[p]
                    == color
                ||| pixels.contains_key(p) && paint_line(
                    pixels,
                    width,
                    height,
                    x0,
                    y0,
                    x1,
                    y1,
                    color,
                    line_len(x0, y0, x1, y1) as nat,
                )[p] == pixels[p]
            },
{
    lemma_paint_line_color(pixels, width, height, x0, y0, x1, y1, color, line_len(x0, y0, x1, y1) as nat);
}

/// Painting the first `m` pixels is the same from either end.
proof fn lemma_paint_line_swap(
    pixels: Map<(u32, u32), [u8; 3]>,
    width: u32,
    height: u32,
    x0: int,
    y0: int,
    x1: int,
    y1: int,
    color: [u8; 3],
    m: nat,
)
    ensures
        paint_line(pixels, width, height, x0, y0, x1, y1, color, m) == paint_line(
            pixels,
            width,
            height,
            x1,
            y1,
            x0,
            y0,
            color,
            m,
        ),
    decreases m,
{
    assert(line_setup(x0, y0, x1, y1) == line_setup(x1, y1, x0, y0));
    if m > 0 {
        lemma_paint_line_swap(pixels, width, height, x0, y0, x1, y1, color, (m - 1) as nat);
        assert(line_point(x0, y0, x1, y1, m - 1) == line_point(x1, y1, x0, y0, m - 1));
    }
}

/// A line drawn from either end sets the same pixels: swapping its two
/// endpoints changes neither its length nor the image it leaves.
pub proof fn lemma_draw_line_ends_swap(
    pixels: Map<(u32, u32), [u8; 3]>,
    width: u32,
    height: u32,
    x0: int,
    y0: int,
    x1: int,
    y1: int,
    color: [u8; 3],
)
    ensures
        line_len(x0, y0, x1, y1) == line_len(x1, y1, x0, y0),
        paint_line(pixels, width, height, x0, y0, x1, y1, color, line_len(x0, y0, x1, y1) as nat) == paint_line(
            pixels,
            width,
            height,
            x1,
            y1,
            x0,
            y0,
            color,
            line_len(x1, y1, x0, y0) as nat,
        ),
{
    assert(line_setup(x0, y0, x1, y1) == line_setup(x1, y1, x0, y0));
    lemma_paint_line_swap(pixels, width, height, x0, y0, x1, y1, color, line_len(x0, y0, x1, y1) as nat);
}

/// Draws a line between two pixel positions with rows counted upward, one
/// pixel per step along its longer axis. Nothing is drawn unless both ends
/// lie in the image.
pub fn draw_line<T, P>(p0: (i64, i64), p1: (i64, i64), color: [u8; 3], context: &mut GraphicsContext<T, P>)
    requires
        old(context).wf(),
    ensures
        final(context).wf(),
        final(context).width() == old(context).width(),
        final(context).height() == old(context).height(),
        final(context).root() == old(context).root(),
        final(context).proj() == old(context).proj(),
        final(context).pixels() == if inside(old(context).width(), old(context).height(), p0) && inside(
            old(context).width(),
            old(context).height(),
            p1,
        ) {
            paint_line(
                old(context).pixels(),
                old(context).width(),
                old(context).height(),
                p0.0 as int,
                p0.1 as int,
                p1.0 as int,
                p1.1 as int,
                color,
                line_len(p0.0 as int, p0.1 as int, p1.0 as int, p1.1 as int) as nat,
            )
        } else {
            old(context).pixels()
        },
{
    let width = context.img_width();
    let height = context.img_height();
    if !(0 <= p0.0 && p0.0 < width as i64 && 0 <= p0.1 && p0.1 < height as i64) {
        return;
    }
    if !(0 <= p1.0 && p1.0 < width as i64 && 0 <= p1.1 && p1.1 < height as i64) {
        return;
    }
    let ghost start = context.pixels();
    let ghost (gx0, gy0, gx1, gy1) = (p0.0 as int, p0.1 as int, p1.0 as int, p1.1 as int);
    let (mut x0, mut y0, mut x1, mut y1) = (p0.0, p0.1, p1.0, p1.1);
    let dx: i64 = if x0 > x1 { x0 - x1 } else { x1 - x0 };
    let dy: i64 = if y0 > y1 { y0 - y1 } else { y1 - y0 };
    let steep = dx < dy;
    if steep {
        let t = x0;
        x0 = y0;
        y0 = t;
        let t = x1;
        x1 = y1;
        y1 = t;
    }
    if x0 > x1 {
        let t = x0;
        x0 = x1;
        x1 = t;
        let t = y0;
        y0 = y1;
        y1 = t;
    }
    if x0 == x1 {
        x1 = x1 + 1;
    }
    let ghost top: int = if width > height { width as int } else { height as int };
    assert(line_setup(gx0, gy0, gx1, gy1) == (steep, x0 as int, y0 as int, x1 as int, y1 as int));
    let n: i64 = x1 - x0;
    let mut k: i64 = 0;
    while k < n
        invariant
            context.wf(),
            context.width() == width,
            context.height() == height,
            context.root() == old(context).root(),
            context.proj() == old(context).proj(),
            0 <= k <= n,
            n == line_len(gx0, gy0, gx1, gy1),
            line_setup(gx0, gy0, gx1, gy1) == (steep, x0 as int, y0 as int, x1 as int, y1 as int),
            0 <= x0,
            x1 <= top + 1,
            0 <= y0 < top,
            0 <= y1 < top,
            top <= 0xffff_ffff,
            n == x1 - x0,
            context.pixels() == paint_line(start, width, height, gx0, gy0, gx1, gy1, color, k as nat),
        decreases n - k,
    {
        proof {
            lemma_interpolate_bounds(y0 as int, y1 as int, n as int, k as int, top);
        }
        assert(0 <= (y0 as int) * ((n - k) as int) <= top * n) by (nonlinear_arith)
            requires
                0 <= y0 < top,
                0 <= k < n,
        ;
        assert(0 <= (y1 as int) * (k as int) <= top * n) by (nonlinear_arith)
            requires
                0 <= y1 < top,
                0 <= k < n,
        ;
        assert(top * n <= 0xffff_ffff * 0x1_0000_0000) by (nonlinear_arith)
            requires
                0 <= top <= 0xffff_ffff,
                0 < n <= 0x1_0000_0000,
        ;
        let num: i128 = (y0 as i128) * ((n - k) as i128) + (y1 as i128) * (k as i128);
        let row: i128 = (2 * num + n as i128) / (2 * n as i128);
        let a: i64 = x0 + k;
        let b: i64 = row as i64;
        assert(b == interpolate(y0 as int, y1 as int, n as int, k as int));
        if steep {
            context.put_pixel(b, a, color);
        } else {
            context.put_pixel(a, b, color);
        }
        k = k + 1;
    }
}

} // verus!
