use vstd::prelude::*;

verus! {

/// Largest magnitude a pose coordinate may have before an update step.
pub const POSE_LIMIT: i32 = 2000000000;

/// Key states sampled once per input tick.
#[derive(Clone, Copy)]
pub struct Keys {
    pub up: bool,
    pub down: bool,
    pub left: bool,
    pub right: bool,
    pub strafe_left: bool,
    pub strafe_right: bool,
    pub look: bool,
}

/// Viewpoint: model-space position, facing angle in degrees, look offset.
#[derive(Clone, Copy)]
pub struct Player {
    pub x: i32,
    pub y: i32,
    pub z: i32,
    pub angle: i32,
    pub look: i32,
}

/// A vertical wall between two model-space points, with a palette id.
#[derive(Clone, Copy)]
pub struct Wall {
    pub x1: i32,
    pub y1: i32,
    pub x2: i32,
    pub y2: i32,
    pub color: u8,
}

/// Walls `wall_start..wall_end` standing on floor `z1` with height `z2`.
/// `distance` is the average squared depth measured by the last frame.
#[derive(Clone, Copy)]
pub struct Sector {
    pub wall_start: usize,
    pub wall_end: usize,
    pub z1: i32,
    pub z2: i32,
    pub x: i32,
    pub y: i32,
    pub distance: i32,
}

/// The renderer's state. `steps[a]` is the movement step for facing angle
/// `a`: the sine and cosine of `a` degrees, times ten, truncated.
pub struct World {
    pub keys: Keys,
    pub tick: u32,
    pub player: Player,
    pub sectors: Vec<Sector>,
    pub walls: Vec<Wall>,
    pub steps: Vec<(i32, i32)>,
}

/// A table of movement steps: one per degree, each component within ten.
pub open spec fn steps_ok(steps: Seq<(i32, i32)>) -> bool {
    &&& steps.len() == 360
    &&& forall|a: int|
        0 <= a < 360 ==> -10 <= #[trigger] steps[a].0 <= 10 && -10 <= steps[a].1 <= 10
}

pub open spec fn sector_ok(s: Sector, n_walls: int) -> bool {
    s.wall_start <= s.wall_end <= n_walls
}

/// Whether the pose leaves room for one more update step.
pub open spec fn pose_in_range(p: Player) -> bool {
    &&& -POSE_LIMIT <= p.x <= POSE_LIMIT
    &&& -POSE_LIMIT <= p.y <= POSE_LIMIT
    &&& -POSE_LIMIT <= p.z <= POSE_LIMIT
    &&& -POSE_LIMIT <= p.look <= POSE_LIMIT
}

/// Facing angle after one step with keys `k`: four degrees per turn key,
/// wrapped into `[0, 360)`; with the look modifier held the angle stays.
pub open spec fn turned(angle: int, k: Keys) -> int {
    let a = if k.left && !k.look {
        if angle - 4 < 0 { angle - 4 + 360 } else { angle - 4 }
    } else {
        angle
    };
    if k.right && !k.look {
        if a + 4 > 359 { a + 4 - 360 } else { a + 4 }
    } else {
        a
    }
}

pub open spec fn when(b: bool, v: int) -> int {
    if b { v } else { 0 }
}

/// The player after one executed update step with keys `k`.
pub open spec fn stepped(p: Player, k: Keys, steps: Seq<(i32, i32)>) -> Player {
    let a = turned(p.angle as int, k);
    let dx = steps[a].0 as int;
    let dy = steps[a].1 as int;
    let fwd = k.up && !k.look;
    let back = k.down && !k.look;
    Player {
        x: (p.x + when(fwd, dx) - when(back, dx) - when(k.strafe_left, dy) + when(k.strafe_right, dy)) as i32,
        y: (p.y + when(fwd, dy) - when(back, dy) + when(k.strafe_left, dx) - when(k.strafe_right, dx)) as i32,
        z: (p.z - when(k.up && k.look, 4) + when(k.down && k.look, 4)) as i32,
        angle: a as i32,
        look: (p.look - when(k.left && k.look, 1) + when(k.right && k.look, 1)) as i32,
    }
}

/// One call of `update` takes `a` to `b`: the counter advances, and when it
/// reaches four it resets and the player takes one step.
pub open spec fn update_step(a: World, b: World) -> bool {
    &&& b.keys == a.keys
    &&& b.sectors@ == a.sectors@
    &&& b.walls@ == a.walls@
    &&& b.steps@ == a.steps@
    &&& a.tick + 1 < 4 ==> b.tick == a.tick + 1 && b.player == a.player
    &&& a.tick + 1 >= 4 ==> b.tick == 0 && b.player == stepped(a.player, a.keys, a.steps@)
}

/// From a fresh counter, three updates leave the player where it was and the
/// fourth takes exactly one step.
pub proof fn lemma_update_throttle(w0: World, w1: World, w2: World, w3: World, w4: World)
    requires
        w0.tick == 0,
        update_step(w0, w1),
        update_step(w1, w2),
        update_step(w2, w3),
        update_step(w3, w4),
    ensures
        w1.player == w0.player,
        w2.player == w0.player,
        w3.player == w0.player,
        w4.player == stepped(w0.player, w0.keys, w0.steps@),
        w4.tick == 0,
{
}

/// Turning wraps into `[0, 360)`: left from 2 gives 358, right from 358 gives 2.
pub proof fn lemma_turn_wraps(k: Keys)
    requires
        !k.look,
        k.left != k.right,
    ensures
        k.left ==> turned(2, k) == 358,
        k.right ==> turned(358, k) == 2,
        forall|a: int| 0 <= a < 360 ==> 0 <= #[trigger] turned(a, k) < 360,
{
}

pub open spec fn keys_released() -> Keys {
    Keys {
        up: false,
        down: false,
        left: false,
        right: false,
        strafe_left: false,
        strafe_right: false,
        look: false,
    }
}

pub open spec fn level_wall(x1: i32, y1: i32, x2: i32, y2: i32, color: u8) -> Wall {
    Wall { x1, y1, x2, y2, color }
}

/// The level's walls: four squares of four walls each.
pub open spec fn level_walls() -> Seq<Wall> {
    seq![
        level_wall(0, 0, 32, 0, 0), level_wall(32, 0, 32, 32, 1),
        level_wall(32, 32, 0, 32, 0), level_wall(0, 32, 0, 0, 1),
        level_wall(64, 0, 96, 0, 2), level_wall(96, 0, 96, 32, 3),
        level_wall(96, 32, 64, 32, 2), level_wall(64, 32, 64, 0, 3),
        level_wall(64, 64, 96, 64, 4), level_wall(96, 64, 96, 96, 5),
        level_wall(96, 96, 64, 96, 4), level_wall(64, 96, 64, 64, 5),
        level_wall(0, 64, 32, 64, 6), level_wall(32, 64, 32, 96, 7),
        level_wall(32, 96, 0, 96, 6), level_wall(0, 96, 0, 64, 7),
    ]
}

pub open spec fn level_sector(n: int) -> Sector {
    Sector {
        wall_start: (4 * n) as usize,
        wall_end: (4 * n + 4) as usize,
        z1: 0,
        z2: 40,
        x: 0,
        y: 0,
        distance: 0,
    }
}

/// The level's sectors: one per square, floor 0, height 40.
pub open spec fn level_sectors() -> Seq<Sector> {
    seq![level_sector(0), level_sector(1), level_sector(2), level_sector(3)]
}

fn when_i32(b: bool, v: i32) -> (r: i32)
    ensures
        r == when(b, v as int),
{
    if b { v } else { 0 }
}

fn turn(angle: i32, k: Keys) -> (r: i32)
    requires
        0 <= angle < 360,
    ensures
        r == turned(angle as int, k),
        0 <= r < 360,
{
    let mut a = angle;
    if k.left && !k.look {
        a = a - 4;
        if a < 0 {
            a = a + 360;
        }
    }
    if k.right && !k.look {
        a = a + 4;
        if a > 359 {
            a = a - 360;
        }
    }
    a
}

impl World {
    pub open spec fn inv(&self) -> bool {
        &&& self.tick < 4
        &&& 0 <= self.player.angle < 360
        &&& steps_ok(self.steps@)
        &&& forall|i: int| 0 <= i < self.sectors@.len() ==> sector_ok(#[trigger] self.sectors@[i], self.walls@.len() as int)
    }

    /// The level at start-up: player at (70, -110, 20) facing angle 0, no
    /// key held, the four-sector level loaded, movement steps from `steps`.
    pub fn new(steps: Vec<(i32, i32)>) -> (r: World)
        requires
            steps_ok(steps@),
        ensures
            r.inv(),
            r.keys == keys_released(),
            r.tick == 0,
            r.player == (Player { x: 70, y: -110i32, z: 20, angle: 0, look: 0 }),
            r.sectors@ == level_sectors(),
            r.walls@ == level_walls(),
            r.steps@ == steps@,
    {
        let keys = Keys {
            up: false,
            down: false,
            left: false,
            right: false,
            strafe_left: false,
            strafe_right: false,
            look: false,
        };
        let player = Player { x: 70, y: -110, z: 20, angle: 0, look: 0 };
        let mut sectors: Vec<Sector> = Vec::new();
        let mut n: usize = 0;
        while n < 4
            invariant
                n <= 4,
                sectors@ == level_sectors().take(n as int),
            decreases 4 - n,
        {
            sectors.push(Sector {
                wall_start: 4 * n,
                wall_end: 4 * n + 4,
                x: 0,
                y: 0,
                distance: 0,
                z1: 0,
                z2: 40,
            });
            assert(sectors@ =~= level_sectors().take(n + 1));
            n = n + 1;
        }
        assert(sectors@ =~= level_sectors());
        let mut walls: Vec<Wall> = Vec::new();
        walls.push(Wall { x1: 0, y1: 0, x2: 32, y2: 0, color: 0 });
        walls.push(Wall { x1: 32, y1: 0, x2: 32, y2: 32, color: 1 });
        walls.push(Wall { x1: 32, y1: 32, x2: 0, y2: 32, color: 0 });
        walls.push(Wall { x1: 0, y1: 32, x2: 0, y2: 0, color: 1 });
        walls.push(Wall { x1: 64, y1: 0, x2: 96, y2: 0, color: 2 });
        walls.push(Wall { x1: 96, y1: 0, x2: 96, y2: 32, color: 3 });
        walls.push(Wall { x1: 96, y1: 32, x2: 64, y2: 32, color: 2 });
        walls.push(Wall { x1: 64, y1: 32, x2: 64, y2: 0, color: 3 });
        walls.push(Wall { x1: 64, y1: 64, x2: 96, y2: 64, color: 4 });
        walls.push(Wall { x1: 96, y1: 64, x2: 96, y2: 96, color: 5 });
        walls.push(Wall { x1: 96, y1: 96, x2: 64, y2: 96, color: 4 });
        walls.push(Wall { x1: 64, y1: 96, x2: 64, y2: 64, color: 5 });
        walls.push(Wall { x1: 0, y1: 64, x2: 32, y2: 64, color: 6 });
        walls.push(Wall { x1: 32, y1: 64, x2: 32, y2: 96, color: 7 });
        walls.push(Wall { x1: 32, y1: 96, x2: 0, y2: 96, color: 6 });
        walls.push(Wall { x1: 0, y1: 96, x2: 0, y2: 64, color: 7 });
        assert(walls@ =~= level_walls());
        World { keys, tick: 0, player, sectors, walls, steps }
    }

    /// Advances the tick counter; every fourth call runs one step of the
    /// pose from the held keys and resets the counter.
    pub fn update(&mut self)
        requires
            old(self).inv(),
            pose_in_range(old(self).player),
        ensures
            final(self).inv(),
            update_step(*old(self), *final(self)),
    {
        if self.tick + 1 < 4 {
            self.tick = self.tick + 1;
            return;
        }
        self.tick = 0;
        let k = self.keys;
        let p = self.player;
        let angle = turn(p.angle, k);
        let step = self.steps[angle as usize];
        let dx = step.0;
        let dy = step.1;
        let fwd = k.up && !k.look;
        let back = k.down && !k.look;
        let x = p.x + when_i32(fwd, dx) - when_i32(back, dx) - when_i32(k.strafe_left, dy) + when_i32(k.strafe_right, dy);
        let y = p.y + when_i32(fwd, dy) - when_i32(back, dy) + when_i32(k.strafe_left, dx) - when_i32(k.strafe_right, dx);
        let z = p.z - when_i32(k.up && k.look, 4) + when_i32(k.down && k.look, 4);
        let look = p.look - when_i32(k.left && k.look, 1) + when_i32(k.right && k.look, 1);
        self.player = Player { x, y, z, angle, look };
    }
}

} // verus!
