use vstd::prelude::*;
use crate::raster::{clamp, clear_byte, covers, idx, palette, trunc_div, FRAME_LEN};
use crate::world::{Sector, Wall, World};
use crate::{HEIGHT, WIDTH};

verus! {

/// What the camera transform, near-plane clip and projection make of one
/// wall of one sector for the current pose.
#[derive(Clone, Copy)]
pub struct WallView {
    /// Sum of the camera-space right coordinates of the two bottom-rail
    /// endpoints, before clipping, truncated to an integer.
    pub sum_x: i32,
    /// Sum of the camera-space forward coordinates of those endpoints.
    pub sum_y: i32,
    /// False when both endpoints lie behind the near plane.
    pub visible: bool,
    /// Screen column of the left and right end.
    pub sx0: i32,
    pub sx1: i32,
    /// Screen rows of the bottom rail at the left and right end.
    pub sy0: i32,
    pub sy1: i32,
    /// Screen rows of the top rail at the left and right end.
    pub sy2: i32,
    pub sy3: i32,
}

pub open spec fn dist_sq(x1: int, y1: int, x2: int, y2: int) -> int {
    (x2 - x1) * (x2 - x1) + (y2 - y1) * (y2 - y1)
}

/// Squared depth of a wall: the squared distance from the camera to the
/// midpoint of its bottom rail, capped at `i32::MAX`.
pub open spec fn view_depth(v: WallView) -> int {
    clamp(dist_sq(0, 0, trunc_div(v.sum_x as int, 2), trunc_div(v.sum_y as int, 2)), 0, i32::MAX as int)
}

/// Running total of wall depths, capped at `i32::MAX` at each addition.
pub open spec fn depth_total(vs: Seq<WallView>) -> int
    decreases vs.len(),
{
    if vs.len() == 0 {
        0
    } else {
        clamp(depth_total(vs.drop_last()) + view_depth(vs.last()), 0, i32::MAX as int)
    }
}

/// Average depth of a sector's walls; zero for a sector without walls.
pub open spec fn avg_depth(vs: Seq<WallView>) -> int {
    if vs.len() == 0 { 0 } else { depth_total(vs) / vs.len() as int }
}

/// Sector `a` is drawn before sector `b`: it was farther at the last frame,
/// or as far and earlier in the list.
pub open spec fn before(ss: Seq<Sector>, a: int, b: int) -> bool {
    ss[a].distance > ss[b].distance || (ss[a].distance == ss[b].distance && a < b)
}

/// `order` lists every sector index once, farthest first, ties in list order.
pub open spec fn is_draw_order(ss: Seq<Sector>, order: Seq<usize>) -> bool {
    &&& order.len() == ss.len()
    &&& forall|i: int| 0 <= i < order.len() ==> #[trigger] order[i] < ss.len()
    &&& forall|i: int, j: int| 0 <= i < j < order.len() ==> before(ss, #[trigger] order[i] as int, #[trigger] order[j] as int)
}

/// The visible walls among `vs`, the views of walls `start..`, with colours.
pub open spec fn sector_cmds(vs: Seq<WallView>, walls: Seq<Wall>, start: int) -> Seq<(WallView, u8)>
    decreases vs.len(),
{
    if vs.len() == 0 {
        seq![]
    } else {
        let prev = sector_cmds(vs.drop_last(), walls, start);
        let v = vs.last();
        if v.visible {
            prev.push((v, walls[start + vs.len() - 1].color))
        } else {
            prev
        }
    }
}

/// The walls drawn for the first `n` sectors of `order`, in drawing order.
pub open spec fn frame_cmds(
    order: Seq<usize>,
    views: Seq<Vec<WallView>>,
    ss: Seq<Sector>,
    walls: Seq<Wall>,
    n: int,
) -> Seq<(WallView, u8)>
    decreases n,
{
    if n <= 0 {
        seq![]
    } else {
        frame_cmds(order, views, ss, walls, n - 1) + sector_cmds(
            views[order[n - 1] as int]@,
            walls,
            ss[order[n - 1] as int].wall_start as int,
        )
    }
}

/// Byte `c` of pixel (`x`, `y`) after a clear and drawing `cmds` in turn:
/// the colour of the last wall that covers the pixel, else the clear colour.
pub open spec fn painted(cmds: Seq<(WallView, u8)>, x: int, y: int, c: int) -> u8
    decreases cmds.len(),
{
    if cmds.len() == 0 {
        clear_byte(c)
    } else {
        let v = cmds.last().0;
        if c < 3 && covers(v.sx0 as int, v.sx1 as int, v.sy0 as int, v.sy1 as int, v.sy2 as int, v.sy3 as int, x, y) {
            palette(cmds.last().1, c)
        } else {
            painted(cmds.drop_last(), x, y, c)
        }
    }
}

/// `s` with its distance replaced by `d`.
pub open spec fn with_distance(s: Sector, d: int) -> Sector {
    Sector {
        wall_start: s.wall_start,
        wall_end: s.wall_end,
        z1: s.z1,
        z2: s.z2,
        x: s.x,
        y: s.y,
        distance: d as i32,
    }
}

/// The outcome of a frame drawn in `order`: the sectors reordered with fresh
/// average depths, and every byte of `f` as painting the walls in turn over
/// a cleared frame leaves it.
pub open spec fn frame_drawn(
    ss: Seq<Sector>,
    views: Seq<Vec<WallView>>,
    walls: Seq<Wall>,
    order: Seq<usize>,
    new_ss: Seq<Sector>,
    f: Seq<u8>,
) -> bool {
    &&& new_ss.len() == ss.len()
    &&& forall|k: int|
        0 <= k < ss.len() ==> #[trigger] new_ss[k] == with_distance(ss[order[k] as int], avg_depth(views[order[k] as int]@))
    &&& forall|x: int, y: int, c: int|
        0 <= x < WIDTH as int && 0 <= y < HEIGHT as int && 0 <= c < 4 ==> #[trigger] f[idx(x, y, c)] == painted(
            frame_cmds(order, views, ss, walls, ss.len() as int),
            x,
            y,
            c,
        )
}

/// A wall wholly behind the camera adds nothing to what is painted.
pub proof fn lemma_hidden_wall_not_drawn(vs: Seq<WallView>, v: WallView, walls: Seq<Wall>, start: int)
    requires
        !v.visible,
    ensures
        sector_cmds(vs.push(v), walls, start) == sector_cmds(vs, walls, start),
{
    assert(vs.push(v).drop_last() =~= vs);
}

/// With every distance equal (as on the first frame) the draw order is the
/// list order.
pub proof fn lemma_equal_distances_keep_order(ss: Seq<Sector>, order: Seq<usize>)
    requires
        is_draw_order(ss, order),
        forall|i: int, j: int| 0 <= i < ss.len() && 0 <= j < ss.len() ==> #[trigger] ss[i].distance == #[trigger] ss[j].distance,
    ensures
        forall|i: int| 0 <= i < order.len() ==> #[trigger] order[i] == i,
{
    let n = order.len() as int;
    assert forall|i: int| 0 <= i < n implies order[i] >= i by {
        lemma_order_lower(ss, order, i);
    }
    assert forall|i: int| 0 <= i < n implies order[i] <= i by {
        lemma_order_upper(ss, order, i);
    }
}

proof fn lemma_order_lower(ss: Seq<Sector>, order: Seq<usize>, i: int)
    requires
        is_draw_order(ss, order),
        forall|i: int, j: int| 0 <= i < ss.len() && 0 <= j < ss.len() ==> #[trigger] ss[i].distance == #[trigger] ss[j].distance,
        0 <= i < order.len(),
    ensures
        order[i] >= i,
    decreases i,
{
    if i > 0 {
        lemma_order_lower(ss, order, i - 1);
        assert(before(ss, order[i - 1] as int, order[i] as int));
    }
}

proof fn lemma_order_upper(ss: Seq<Sector>, order: Seq<usize>, i: int)
    requires
        is_draw_order(ss, order),
        forall|i: int, j: int| 0 <= i < ss.len() && 0 <= j < ss.len() ==> #[trigger] ss[i].distance == #[trigger] ss[j].distance,
        0 <= i < order.len(),
    ensures
        order[i] + (order.len() - 1 - i) <= order.len() - 1,
    decreases order.len() - i,
{
    if i < order.len() - 1 {
        lemma_order_upper(ss, order, i + 1);
        assert(before(ss, order[i] as int, order[i + 1] as int));
    }
}

/// Drawing never touches the alpha channel left by the clear.
pub proof fn lemma_painted_alpha(cmds: Seq<(WallView, u8)>, x: int, y: int)
    ensures
        painted(cmds, x, y, 3) == 255,
    decreases cmds.len(),
{
    if cmds.len() > 0 {
        lemma_painted_alpha(cmds.drop_last(), x, y);
    }
}

fn half(v: i32) -> (r: i64)
    ensures
        r == trunc_div(v as int, 2),
        -0x4000_0000 <= r <= 0x4000_0000,
{
    let w: i64 = v as i64;
    if w >= 0 {
        w / 2
    } else {
        -((-w) / 2)
    }
}

impl World {
    /// The order in which the next frame draws the sectors: farthest first by
    /// the distance of the last frame, ties in list order.
    pub fn draw_order(&self) -> (r: Vec<usize>)
        ensures
            is_draw_order(self.sectors@, r@),
    {
        let ghost ss = self.sectors@;
        let n = self.sectors.len();
        let mut order: Vec<usize> = Vec::new();
        let mut i: usize = 0;
        while i < n
            invariant
                n == ss.len(),
                ss == self.sectors@,
                i <= n,
                order@.len() == i,
                forall|a: int| 0 <= a < order@.len() ==> #[trigger] order@[a] < i,
                forall|a: int, b: int|
                    0 <= a < b < order@.len() ==> before(ss, #[trigger] order@[a] as int, #[trigger] order@[b] as int),
            decreases n - i,
        {
            let d = self.sectors[i].distance;
            let mut p: usize = order.len();
            while p > 0 && self.sectors[order[p - 1]].distance < d
                invariant
                    n == ss.len(),
                    ss == self.sectors@,
                    p <= order@.len(),
                    order@.len() == i,
                    i < n,
                    d == ss[i as int].distance,
                    forall|a: int| 0 <= a < order@.len() ==> #[trigger] order@[a] < i,
                    forall|q: int| p <= q < order@.len() ==> ss[#[trigger] order@[q] as int].distance < d,
                decreases p,
            {
                p = p - 1;
            }
            let ghost prev = order@;
            order.insert(p, i);
            assert forall|a: int, b: int|
                0 <= a < b < order@.len() implies before(ss, #[trigger] order@[a] as int, #[trigger] order@[b] as int) by {
                if p > 0 {
                    assert(ss[prev[p - 1] as int].distance >= d);
                    if a < p {
                        assert(a == p - 1 || before(ss, prev[a] as int, prev[p - 1] as int));
                    }
                }
                if b == p && a < p {
                    assert(ss[prev[a] as int].distance >= d);
                } else if a == p {
                    assert(ss[prev[b - 1] as int].distance < d);
                } else if a < p && b > p {
                    assert(before(ss, prev[a] as int, prev[b - 1] as int));
                } else if a > p {
                    assert(before(ss, prev[a - 1] as int, prev[b - 1] as int));
                }
            }
            i = i + 1;
        }
        order
    }
    /// Draws one frame: clears `frame`, then paints the walls of each sector
    /// in draw order, farthest sector first, skipping walls wholly behind the
    /// camera. `views[s]` describes the walls of sector `s` in their order.
    /// The sectors are left in draw order, each with the average depth of its
    /// walls in this frame.
    pub fn draw(&mut self, frame: &mut Vec<u8>, views: &Vec<Vec<WallView>>)
        requires
            old(self).inv(),
            old(frame)@.len() == FRAME_LEN,
            views@.len() == old(self).sectors@.len(),
            forall|s: int|
                0 <= s < views@.len() ==> #[trigger] views@[s]@.len() == old(self).sectors@[s].wall_end
                    - old(self).sectors@[s].wall_start,
        ensures
            final(self).inv(),
            final(self).keys == old(self).keys,
            final(self).tick == old(self).tick,
            final(self).player == old(self).player,
            final(self).walls@ == old(self).walls@,
            final(self).steps@ == old(self).steps@,
            final(frame)@.len() == FRAME_LEN,
            final(self).sectors@.len() == old(self).sectors@.len(),
            forall|k: int| 0 <= k < final(self).sectors@.len() ==> #[trigger] final(self).sectors@[k].distance >= 0,
            forall|x: int, y: int|
                0 <= x < WIDTH as int && 0 <= y < HEIGHT as int ==> #[trigger] final(frame)@[idx(x, y, 3)] == 255,
            exists|order: Seq<usize>|
                is_draw_order(old(self).sectors@, order) && frame_drawn(
                    old(self).sectors@,
                    views@,
                    old(self).walls@,
                    order,
                    final(self).sectors@,
                    final(frame)@,
                ),
    {
        let ghost ss = self.sectors@;
        let ghost walls = self.walls@;
        let order = self.draw_order();
        self.clear(frame);
        assert forall|x: int, y: int, c: int|
            0 <= x < WIDTH as int && 0 <= y < HEIGHT as int && 0 <= c < 4 implies #[trigger] frame@[idx(x, y, c)]
                == painted(frame_cmds(order@, views@, ss, walls, 0), x, y, c) by {
            assert(idx(x, y, c) % 4 == c);
        }
        let n = self.sectors.len();
        let mut sorted: Vec<Sector> = Vec::new();
        let mut k: usize = 0;
        while k < n
            invariant
                self.inv(),
                self.sectors@ == ss,
                self.walls@ == walls,
                n == ss.len(),
                views@.len() == n,
                forall|s: int|
                    0 <= s < views@.len() ==> #[trigger] views@[s]@.len() == ss[s].wall_end - ss[s].wall_start,
                is_draw_order(ss, order@),
                k <= n,
                sorted@.len() == k,
                forall|j: int| 0 <= j < k ==> #[trigger] sorted@[j].distance >= 0,
                forall|j: int|
                    0 <= j < k ==> #[trigger] sorted@[j] == with_distance(ss[order@[j] as int], avg_depth(views@[order@[j] as int]@)),
                frame@.len() == FRAME_LEN,
                forall|x: int, y: int, c: int|
                    0 <= x < WIDTH as int && 0 <= y < HEIGHT as int && 0 <= c < 4 ==> #[trigger] frame@[idx(x, y, c)]
                        == painted(frame_cmds(order@, views@, ss, walls, k as int), x, y, c),
            decreases n - k,
        {
            let o = order[k];
            let sec = self.sectors[o];
            let vs = &views[o];
            let len = sec.wall_end - sec.wall_start;
            let ghost start = sec.wall_start as int;
            let ghost base = frame_cmds(order@, views@, ss, walls, k as int);
            let mut acc: i32 = 0;
            let mut w: usize = 0;
            while w < len
                invariant
                    self.inv(),
                    self.sectors@ == ss,
                    self.walls@ == walls,
                    sec.wall_start <= sec.wall_end <= walls.len(),
                    len == sec.wall_end - sec.wall_start,
                    start == sec.wall_start,
                    base == frame_cmds(order@, views@, ss, walls, k as int),
                    vs@.len() == len,
                    w <= len,
                    0 <= acc,
                    acc == depth_total(vs@.take(w as int)),
                    frame@.len() == FRAME_LEN,
                    forall|x: int, y: int, c: int|
                        0 <= x < WIDTH as int && 0 <= y < HEIGHT as int && 0 <= c < 4 ==> #[trigger] frame@[idx(x, y, c)]
                            == painted(base + sector_cmds(vs@.take(w as int), walls, start), x, y, c),
                decreases len - w,
            {
                let v = vs[w];
                let m = World::distance(0, 0, half(v.sum_x) as i32, half(v.sum_y) as i32);
                let ghost prev_cmds = base + sector_cmds(vs@.take(w as int), walls, start);
                assert(vs@.take(w + 1).drop_last() =~= vs@.take(w as int));
                acc = if acc as i64 + m as i64 > i32::MAX as i64 {
                    i32::MAX
                } else {
                    acc + m
                };
                if v.visible {
                    let color = self.walls[sec.wall_start + w].color;
                    let ghost f1 = frame@;
                    self.draw_wall(frame, v.sx0, v.sx1, v.sy0, v.sy1, v.sy2, v.sy3, color);
                    let ghost next = prev_cmds.push((v, color));
                    assert(vs@.take(w + 1).last() == v);
                    assert(vs@.take(w + 1).len() == w + 1);
                    assert(color == walls[start + w].color);
                    assert(vs@.take(w + 1).last().visible);
                    assert(sector_cmds(vs@.take(w + 1), walls, start) == sector_cmds(vs@.take(w as int), walls, start).push(
                        (v, color),
                    ));
                    assert(next =~= base + sector_cmds(vs@.take(w + 1), walls, start));
                    assert(next.drop_last() =~= prev_cmds);
                    assert forall|x: int, y: int, c: int|
                        0 <= x < WIDTH as int && 0 <= y < HEIGHT as int && 0 <= c < 4 implies #[trigger] frame@[idx(x, y, c)]
                            == painted(next, x, y, c) by {
                        assert(f1[idx(x, y, c)] == painted(prev_cmds, x, y, c));
                    }
                } else {
                    assert(prev_cmds =~= base + sector_cmds(vs@.take(w + 1), walls, start));
                }
                w = w + 1;
            }
            assert(vs@.take(len as int) =~= vs@);
            let dist: i32 = if len == 0 {
                0
            } else {
                ((acc as usize) / len) as i32
            };
            sorted.push(Sector {
                wall_start: sec.wall_start,
                wall_end: sec.wall_end,
                z1: sec.z1,
                z2: sec.z2,
                x: sec.x,
                y: sec.y,
                distance: dist,
            });
            k = k + 1;
        }
        assert forall|x: int, y: int| 0 <= x < WIDTH as int && 0 <= y < HEIGHT as int implies #[trigger] frame@[idx(x, y, 3)]
            == 255 by {
            lemma_painted_alpha(frame_cmds(order@, views@, ss, walls, n as int), x, y);
        }
        self.sectors = sorted;
        assert(frame_drawn(ss, views@, walls, order@, self.sectors@, frame@));
    }

    /// Squared distance between (`x1`, `y1`) and (`x2`, `y2`), capped at
    /// `i32::MAX`.
    pub fn distance(x1: i32, y1: i32, x2: i32, y2: i32) -> (r: i32)
        ensures
            r == clamp(dist_sq(x1 as int, y1 as int, x2 as int, y2 as int), 0, i32::MAX as int),
    {
        let dx: i128 = x2 as i128 - x1 as i128;
        let dy: i128 = y2 as i128 - y1 as i128;
        assert(0 <= dx * dx <= 0x1_0000_0000 * 0x1_0000_0000) by (nonlinear_arith)
            requires
                -0x1_0000_0000 <= dx <= 0x1_0000_0000,
        ;
        assert(0 <= dy * dy <= 0x1_0000_0000 * 0x1_0000_0000) by (nonlinear_arith)
            requires
                -0x1_0000_0000 <= dy <= 0x1_0000_0000,
        ;
        let d: i128 = dx * dx + dy * dy;
        if d > i32::MAX as i128 {
            i32::MAX
        } else {
            d as i32
        }
    }
}

} // verus!
