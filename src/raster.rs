use vstd::prelude::*;
use crate::world::World;
use crate::{HEIGHT, WIDTH};

verus! {

/// Number of bytes in a frame: four channels (R, G, B, A) per pixel.
pub const FRAME_LEN: usize = 320 * 240 * 4;

/// Byte offset of channel `c` of the pixel at column `x`, row `y`.
pub open spec fn idx(x: int, y: int, c: int) -> int {
    (y * WIDTH as int + x) * 4 + c
}

/// The colour written for `color_id` on channel `ch` (0 = R, 1 = G, 2 = B);
/// ids outside the palette fall back to the clear colour.
pub open spec fn palette(color_id: u8, ch: int) -> u8 {
    let rgb: (u8, u8, u8) = if color_id == 0 {
        (255, 255, 0)
    } else if color_id == 1 {
        (160, 160, 0)
    } else if color_id == 2 {
        (0, 255, 0)
    } else if color_id == 3 {
        (0, 160, 0)
    } else if color_id == 4 {
        (0, 255, 255)
    } else if color_id == 5 {
        (0, 160, 160)
    } else if color_id == 6 {
        (160, 100, 0)
    } else if color_id == 7 {
        (110, 50, 160)
    } else {
        (0, 60, 130)
    };
    if ch == 0 { rgb.0 } else if ch == 1 { rgb.1 } else { rgb.2 }
}

/// The sky/floor colour every byte of channel `ch` takes after a clear.
pub open spec fn clear_byte(ch: int) -> u8 {
    if ch == 0 { 0 } else if ch == 1 { 60 } else if ch == 2 { 130 } else { 255 }
}

pub open spec fn clamp(v: int, lo: int, hi: int) -> int {
    if v < lo { lo } else if v > hi { hi } else { v }
}

/// Division rounding toward zero, for a positive divisor.
pub open spec fn trunc_div(n: int, d: int) -> int {
    if n >= 0 { n / d } else { -((-n) / d) }
}

/// First column a wall spanning raw columns `x1`..`x2` fills.
pub open spec fn first_col(x1: int) -> int {
    clamp(x1, 1, WIDTH as int - 1)
}

/// Column after the last one filled; a zero-width span counts as one column.
pub open spec fn end_col(x1: int, x2: int) -> int {
    clamp(if x1 == x2 { x2 + 1 } else { x2 }, 1, WIDTH as int - 1)
}

/// Horizontal extent used as the interpolation denominator.
pub open spec fn span(x1: int, x2: int) -> int {
    if x2 - x1 == 0 { 1 } else { x2 - x1 }
}

/// Height of a rail at column offset `k`: linear interpolation of `delta`
/// over `dx` columns at the pixel centre, truncated, offset by `base` and
/// clamped to the drawable rows.
pub open spec fn rail_row(delta: int, base: int, k: int, dx: int) -> int {
    clamp(trunc_div(delta * (2 * k + 1), 2 * dx) + base, 1, HEIGHT as int - 1)
}

pub open spec fn sat_i32(v: int) -> int {
    clamp(v, i32::MIN as int, i32::MAX as int)
}

/// Whether the quad with columns `x1`, `x2`, bottom rail `b1`, `b2` and top
/// rail `t1`, `t2` covers pixel (`x`, `y`).
pub open spec fn covers(x1: int, x2: int, b1: int, b2: int, t1: int, t2: int, x: int, y: int) -> bool {
    let dx = span(x1, x2);
    let ya = rail_row(sat_i32(b2 - b1), b1, x - x1, dx);
    let yb = rail_row(t2 - t1, t1, x - x1, dx);
    &&& first_col(x1) <= x < end_col(x1, x2)
    &&& (if ya <= yb { ya <= y < yb } else { yb <= y < ya })
}

/// A zero-width span fills at most its own column, and always that column
/// when it lies inside the border and the rails are apart.
pub proof fn lemma_degenerate_span_one_column(x1: int, b1: int, t1: int)
    requires
        1 <= x1 < WIDTH as int - 1,
        1 <= b1 < t1 < HEIGHT as int,
    ensures
        forall|x: int, y: int| #[trigger] covers(x1, x1, b1, b1, t1, t1, x, y) ==> x == x1,
        forall|y: int| b1 <= y < t1 ==> #[trigger] covers(x1, x1, b1, b1, t1, t1, x1, y),
{
    assert(trunc_div(0, 2) == 0);
}

proof fn lemma_idx_bounds(x: int, y: int, c: int)
    requires
        0 <= x < WIDTH as int,
        0 <= y < HEIGHT as int,
        0 <= c < 4,
    ensures
        0 <= idx(x, y, c) < FRAME_LEN as int,
{
}

fn clamp_i64(v: i64, lo: i64, hi: i64) -> (r: i64)
    requires
        lo <= hi,
    ensures
        r == clamp(v as int, lo as int, hi as int),
{
    if v < lo {
        lo
    } else if v > hi {
        hi
    } else {
        v
    }
}

/// Row of a rail at column offset `k`, as `rail_row` states it.
fn row_at(delta: i64, base: i64, k: i64, dx: i64) -> (r: i64)
    requires
        -0x1_0000_0000 <= delta <= 0x1_0000_0000,
        -0x8000_0000 <= base <= 0x8000_0000,
        0 <= k <= 0x4_0000_0000,
        1 <= dx <= 0x4_0000_0000,
    ensures
        r == rail_row(delta as int, base as int, k as int, dx as int),
{
    let m: i128 = 2 * (k as i128) + 1;
    assert(-0x1_0000_0000 * 0x8_0000_0001 <= (delta as int) * (m as int) <= 0x1_0000_0000 * 0x8_0000_0001)
        by (nonlinear_arith)
        requires
            -0x1_0000_0000 <= delta <= 0x1_0000_0000,
            1 <= m <= 0x8_0000_0001,
    ;
    let num: i128 = (delta as i128) * m;
    let den: i128 = 2 * (dx as i128);
    let q: i128 = if num >= 0 {
        num / den
    } else {
        -((-num) / den)
    };
    assert(-0x1_0000_0000 * 0x8_0000_0001 <= q <= 0x1_0000_0000 * 0x8_0000_0001) by {
        if num >= 0 {
            assert((num as int) / (den as int) <= num as int) by (nonlinear_arith)
                requires
                    num >= 0,
                    den >= 2,
            ;
        } else {
            assert((-(num as int)) / (den as int) <= -(num as int)) by (nonlinear_arith)
                requires
                    -num > 0,
                    den >= 2,
            ;
        }
    }
    let v: i128 = q + base as i128;
    if v < 1 {
        1
    } else if v > (HEIGHT as i128) - 1 {
        (HEIGHT as i64) - 1
    } else {
        v as i64
    }
}

impl World {
    /// Fills every pixel with the sky/floor colour, alpha opaque.
    pub fn clear(&self, frame: &mut Vec<u8>)
        requires
            old(frame)@.len() % 4 == 0,
        ensures
            final(frame)@.len() == old(frame)@.len(),
            forall|i: int| 0 <= i < final(frame)@.len() ==> final(frame)@[i] == clear_byte(i % 4),
    {
        let n = frame.len();
        let mut i: usize = 0;
        while i < n
            invariant
                n == frame@.len(),
                n % 4 == 0,
                i % 4 == 0,
                i <= n,
                forall|j: int| 0 <= j < i ==> frame@[j] == clear_byte(j % 4),
            decreases n - i,
        {
            frame.set(i, 0);
            frame.set(i + 1, 60);
            frame.set(i + 2, 130);
            frame.set(i + 3, 255);
            i = i + 4;
        }
    }

    /// Scan-fills the quad with columns `x1`..`x2`, bottom rail `b1`..`b2`
    /// and top rail `t1`..`t2` in the palette colour `color`: each covered
    /// pixel gets that colour on R, G, B; every other byte is left alone.
    pub fn draw_wall(&self, frame: &mut Vec<u8>, x1: i32, x2: i32, b1: i32, b2: i32, t1: i32, t2: i32, color: u8)
        requires
            old(frame)@.len() == FRAME_LEN,
        ensures
            final(frame)@.len() == FRAME_LEN,
            forall|x: int, y: int, c: int|
                #![trigger final(frame)@[idx(x, y, c)]]
                0 <= x < WIDTH as int && 0 <= y < HEIGHT as int && 0 <= c < 4 ==> final(frame)@[idx(x, y, c)]
                    == if c < 3 && covers(x1 as int, x2 as int, b1 as int, b2 as int, t1 as int, t2 as int, x, y) {
                    palette(color, c)
                } else {
                    old(frame)@[idx(x, y, c)]
                },
    {
        let ghost f0 = frame@;
        let dyb: i64 = clamp_i64(b2 as i64 - b1 as i64, i32::MIN as i64, i32::MAX as i64);
        let dyt: i64 = t2 as i64 - t1 as i64;
        let xs: i64 = x1 as i64;
        let dx: i64 = if x2 as i64 - xs == 0 { 1 } else { x2 as i64 - xs };
        let end_raw: i64 = if x1 == x2 { x2 as i64 + 1 } else { x2 as i64 };
        let cx1: i64 = clamp_i64(xs, 1, (WIDTH as i64) - 1);
        let cx2: i64 = clamp_i64(end_raw, 1, (WIDTH as i64) - 1);
        let mut x: i64 = cx1;
        while x < cx2
            invariant
                frame@.len() == FRAME_LEN,
                cx1 <= x <= WIDTH as int,
                cx1 == first_col(x1 as int),
                cx2 == end_col(x1 as int, x2 as int),
                dyb == sat_i32(b2 - b1),
                dyt == t2 - t1,
                xs == x1,
                dx == span(x1 as int, x2 as int),
                forall|px: int, py: int, c: int|
                    #![trigger frame@[idx(px, py, c)]]
                    0 <= px < WIDTH as int && 0 <= py < HEIGHT as int && 0 <= c < 4 ==> frame@[idx(px, py, c)]
                        == if c < 3 && px < x && covers(x1 as int, x2 as int, b1 as int, b2 as int, t1 as int, t2 as int, px, py) {
                        palette(color, c)
                    } else {
                        f0[idx(px, py, c)]
                    },
            decreases cx2 - x,
        {
            let k: i64 = x - xs;
            let ya: i64 = row_at(dyb, b1 as i64, k, dx);
            let yb: i64 = row_at(dyt, t1 as i64, k, dx);
            let lo: i64 = if ya <= yb { ya } else { yb };
            let hi: i64 = if ya <= yb { yb } else { ya };
            let ghost fx = frame@;
            let mut y: i64 = lo;
            while y < hi
                invariant
                    frame@.len() == FRAME_LEN,
                    1 <= x < WIDTH as int,
                    1 <= lo <= y <= hi,
                    hi < HEIGHT as int,
                    forall|px: int, py: int, c: int|
                        #![trigger frame@[idx(px, py, c)]]
                        0 <= px < WIDTH as int && 0 <= py < HEIGHT as int && 0 <= c < 4 ==> frame@[idx(px, py, c)]
                            == if c < 3 && px == x && lo <= py < y {
                            palette(color, c)
                        } else {
                            fx[idx(px, py, c)]
                        },
                decreases hi - y,
            {
                let ghost fy = frame@;
                self.pixel(frame, x as u32, y as u32, color);
                assert forall|px: int, py: int, c: int|
                    0 <= px < WIDTH as int && 0 <= py < HEIGHT as int && 0 <= c < 4 implies frame@[idx(px, py, c)]
                        == if c < 3 && px == x && lo <= py < y + 1 {
                        palette(color, c)
                    } else {
                        fx[idx(px, py, c)]
                    } by {
                    assert(fy[idx(px, py, c)] == if c < 3 && px == x && lo <= py < y {
                        palette(color, c)
                    } else {
                        fx[idx(px, py, c)]
                    });
                }
                y = y + 1;
            }
            assert forall|py: int| 0 <= py < HEIGHT as int implies (lo <= py < hi <==> covers(
                x1 as int,
                x2 as int,
                b1 as int,
                b2 as int,
                t1 as int,
                t2 as int,
                x as int,
                py,
            )) by {
                assert(ya == rail_row(sat_i32(b2 - b1), b1 as int, x - x1, span(x1 as int, x2 as int)));
                assert(yb == rail_row(t2 - t1, t1 as int, x - x1, span(x1 as int, x2 as int)));
            }
            assert forall|px: int, py: int, c: int|
                0 <= px < WIDTH as int && 0 <= py < HEIGHT as int && 0 <= c < 4 implies frame@[idx(px, py, c)]
                    == if c < 3 && px < x + 1 && covers(x1 as int, x2 as int, b1 as int, b2 as int, t1 as int, t2 as int, px, py) {
                    palette(color, c)
                } else {
                    f0[idx(px, py, c)]
                } by {
                assert(fx[idx(px, py, c)] == if c < 3 && px < x && covers(x1 as int, x2 as int, b1 as int, b2 as int, t1 as int, t2 as int, px, py) {
                    palette(color, c)
                } else {
                    f0[idx(px, py, c)]
                });
                assert(frame@[idx(px, py, c)] == if c < 3 && px == x && lo <= py < hi {
                    palette(color, c)
                } else {
                    fx[idx(px, py, c)]
                });
                if px == x {
                    assert(lo <= py < hi <==> covers(x1 as int, x2 as int, b1 as int, b2 as int, t1 as int, t2 as int, x as int, py));
                }
            }
            x = x + 1;
        }
    }

    /// Overwrites the R, G, B channels of pixel (`x`, `y`) with the palette
    /// entry of `c`, leaving alpha and every other byte as they were.
    pub fn pixel(&self, frame: &mut Vec<u8>, x: u32, y: u32, c: u8)
        requires
            old(frame)@.len() == FRAME_LEN,
            x < WIDTH,
            y < HEIGHT,
        ensures
            final(frame)@ == old(frame)@.update(idx(x as int, y as int, 0), palette(c, 0)).update(
                idx(x as int, y as int, 1),
                palette(c, 1),
            ).update(idx(x as int, y as int, 2), palette(c, 2)),
    {
        let rgb: (u8, u8, u8) = match c {
            0 => (255, 255, 0),
            1 => (160, 160, 0),
            2 => (0, 255, 0),
            3 => (0, 160, 0),
            4 => (0, 255, 255),
            5 => (0, 160, 160),
            6 => (160, 100, 0),
            7 => (110, 50, 160),
            _ => (0, 60, 130),
        };
        proof { lemma_idx_bounds(x as int, y as int, 2); }
        let i: usize = ((y * WIDTH + x) * 4) as usize;
        frame.set(i, rgb.0);
        frame.set(i + 1, rgb.1);
        frame.set(i + 2, rgb.2);
    }
}

} // verus!
