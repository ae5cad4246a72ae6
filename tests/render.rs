use doom_raster::raster::FRAME_LEN;
use doom_raster::render::WallView;
use doom_raster::world::World;

fn steps() -> Vec<(i32, i32)> {
    (0..360)
        .map(|a| {
            let r = (a as f64).to_radians();
            ((r.sin() * 10.0) as i32, (r.cos() * 10.0) as i32)
        })
        .collect()
}

fn hidden() -> WallView {
    WallView { sum_x: 0, sum_y: 0, visible: false, sx0: 0, sx1: 0, sy0: 0, sy1: 0, sy2: 0, sy3: 0 }
}

fn rgb(f: &[u8], x: usize, y: usize) -> (u8, u8, u8, u8) {
    let i = (y * 320 + x) * 4;
    (f[i], f[i + 1], f[i + 2], f[i + 3])
}

fn clip(p: &mut (f64, f64, f64), q: (f64, f64, f64)) {
    let mut d = p.1 - q.1;
    if d == 0.0 {
        d = 1.0;
    }
    let s = p.1 / d;
    p.0 += s * (q.0 - p.0);
    p.1 += s * (q.1 - p.1);
    if p.1 == 0.0 {
        p.1 = 1.0;
    }
    p.2 += s * (q.2 - p.2);
}

fn project(v: f64, y: f64, half: i32) -> i32 {
    ((v * 200.0 / y) as i32).saturating_add(half)
}

fn views(w: &World) -> Vec<Vec<WallView>> {
    let a = (w.player.angle as f64).to_radians();
    let (sn, cs) = (a.sin(), a.cos());
    let p = &w.player;
    w.sectors
        .iter()
        .map(|s| {
            (s.wall_start..s.wall_end)
                .map(|i| {
                    let wall = &w.walls[i];
                    let (x1, y1) = ((wall.x1 - p.x) as f64, (wall.y1 - p.y) as f64);
                    let (x2, y2) = ((wall.x2 - p.x) as f64, (wall.y2 - p.y) as f64);
                    let (wx0, wy0) = (x1 * cs - y1 * sn, y1 * cs + x1 * sn);
                    let (wx1, wy1) = (x2 * cs - y2 * sn, y2 * cs + x2 * sn);
                    let base = s.z1 as f64 - p.z as f64;
                    let wz0 = base + p.look as f64 * wy0 / 32.0;
                    let wz1 = base + p.look as f64 * wy1 / 32.0;
                    let mut b0 = (wx0, wy0, wz0);
                    let mut b1 = (wx1, wy1, wz1);
                    let mut t0 = (wx0, wy0, wz0 + s.z2 as f64);
                    let mut t1 = (wx1, wy1, wz1 + s.z2 as f64);
                    let mut v = hidden();
                    v.sum_x = (wx0 + wx1) as i32;
                    v.sum_y = (wy0 + wy1) as i32;
                    if wy0 < 1.0 && wy1 < 1.0 {
                        return v;
                    }
                    if wy0 < 1.0 {
                        clip(&mut b0, b1);
                        clip(&mut t0, t1);
                    }
                    if wy1 < 1.0 {
                        clip(&mut b1, b0);
                        clip(&mut t1, t0);
                    }
                    v.visible = true;
                    v.sx0 = project(b0.0, b0.1, 160);
                    v.sx1 = project(b1.0, b1.1, 160);
                    v.sy0 = project(b0.2, b0.1, 120);
                    v.sy1 = project(b1.2, b1.1, 120);
                    v.sy2 = project(t0.2, t0.1, 120);
                    v.sy3 = project(t1.2, t1.1, 120);
                    v
                })
                .collect()
        })
        .collect()
}

#[test]
fn palette_known_and_fallback() {
    let w = World::new(steps());
    let mut f = vec![0u8; FRAME_LEN];
    w.clear(&mut f);
    w.pixel(&mut f, 5, 7, 2);
    w.pixel(&mut f, 6, 7, 99);
    w.pixel(&mut f, 7, 7, 7);
    assert_eq!(rgb(&f, 5, 7), (0, 255, 0, 255));
    assert_eq!(rgb(&f, 6, 7), (0, 60, 130, 255));
    assert_eq!(rgb(&f, 7, 7), (110, 50, 160, 255));
}

#[test]
fn pixel_leaves_alpha() {
    let w = World::new(steps());
    let mut f = vec![7u8; FRAME_LEN];
    w.pixel(&mut f, 319, 239, 0);
    assert_eq!(rgb(&f, 319, 239), (255, 255, 0, 7));
    assert_eq!(rgb(&f, 318, 239), (7, 7, 7, 7));
}

#[test]
fn clear_fills_sky() {
    let w = World::new(steps());
    let mut f = vec![9u8; FRAME_LEN];
    w.clear(&mut f);
    assert!(f.chunks(4).all(|p| p == [0, 60, 130, 255]));
}

#[test]
fn rotation_wraps_left() {
    let mut w = World::new(steps());
    w.player.angle = 2;
    w.keys.left = true;
    w.tick = 3;
    w.update();
    assert_eq!(w.player.angle, 358);
}

#[test]
fn rotation_wraps_right() {
    let mut w = World::new(steps());
    w.player.angle = 358;
    w.keys.right = true;
    w.tick = 3;
    w.update();
    assert_eq!(w.player.angle, 2);
}

#[test]
fn update_runs_every_fourth_call() {
    let mut w = World::new(steps());
    w.keys.up = true;
    for _ in 0..3 {
        w.update();
        assert_eq!((w.player.x, w.player.y), (70, -110));
    }
    w.update();
    assert_eq!((w.player.x, w.player.y), (70, -100));
    assert_eq!(w.tick, 0);
}

#[test]
fn look_mode_moves_height_and_look() {
    let mut w = World::new(steps());
    w.keys.look = true;
    w.keys.up = true;
    w.keys.right = true;
    w.tick = 3;
    w.update();
    assert_eq!((w.player.x, w.player.y, w.player.z, w.player.angle, w.player.look), (70, -110, 16, 0, 1));
}

#[test]
fn strafe_uses_perpendicular_step() {
    let mut w = World::new(steps());
    w.player.angle = 90;
    w.keys.strafe_right = true;
    w.tick = 3;
    w.update();
    // at 90 degrees the step is (10, 0): strafing right adds (0, -10)
    assert_eq!((w.player.x, w.player.y), (70, -120));
}

#[test]
fn distance_exact_and_capped() {
    assert_eq!(World::distance(0, 0, 3, 4), 25);
    assert_eq!(World::distance(1, 1, -2, 5), 25);
    assert_eq!(World::distance(0, 0, 100000, 0), i32::MAX);
}

#[test]
fn degenerate_span_fills_one_column() {
    let w = World::new(steps());
    let mut f = vec![0u8; FRAME_LEN];
    w.clear(&mut f);
    w.draw_wall(&mut f, 100, 100, 50, 50, 80, 80, 3);
    for y in 0..240 {
        let expect = if (50..80).contains(&y) { (0, 160, 0, 255) } else { (0, 60, 130, 255) };
        assert_eq!(rgb(&f, 100, y), expect);
        assert_eq!(rgb(&f, 99, y), (0, 60, 130, 255));
        assert_eq!(rgb(&f, 101, y), (0, 60, 130, 255));
    }
}

#[test]
fn wall_interpolates_rails() {
    let w = World::new(steps());
    let mut f = vec![0u8; FRAME_LEN];
    w.clear(&mut f);
    w.draw_wall(&mut f, 10, 20, 50, 60, 100, 100, 0);
    // column 19: 10 * 9.5 / 10 truncates to 9, so the bottom rail is at 59
    assert_eq!(rgb(&f, 19, 58), (0, 60, 130, 255));
    assert_eq!(rgb(&f, 19, 59), (255, 255, 0, 255));
    assert_eq!(rgb(&f, 19, 99), (255, 255, 0, 255));
    assert_eq!(rgb(&f, 19, 100), (0, 60, 130, 255));
    assert_eq!(rgb(&f, 10, 50), (255, 255, 0, 255));
    assert_eq!(rgb(&f, 20, 70), (0, 60, 130, 255));
}

#[test]
fn inverted_rails_still_fill() {
    let w = World::new(steps());
    let mut f = vec![0u8; FRAME_LEN];
    w.clear(&mut f);
    w.draw_wall(&mut f, 30, 31, 150, 150, 100, 100, 4);
    assert_eq!(rgb(&f, 30, 100), (0, 255, 255, 255));
    assert_eq!(rgb(&f, 30, 149), (0, 255, 255, 255));
    assert_eq!(rgb(&f, 30, 150), (0, 60, 130, 255));
}

#[test]
fn border_is_never_written() {
    let w = World::new(steps());
    let mut f = vec![0u8; FRAME_LEN];
    w.clear(&mut f);
    w.draw_wall(&mut f, -500, 900, -1000, -1000, 5000, 5000, 1);
    assert_eq!(rgb(&f, 0, 100), (0, 60, 130, 255));
    assert_eq!(rgb(&f, 319, 100), (0, 60, 130, 255));
    assert_eq!(rgb(&f, 100, 0), (0, 60, 130, 255));
    assert_eq!(rgb(&f, 100, 239), (0, 60, 130, 255));
    assert_eq!(rgb(&f, 1, 1), (160, 160, 0, 255));
    assert_eq!(rgb(&f, 318, 238), (160, 160, 0, 255));
}

#[test]
fn hidden_walls_draw_nothing() {
    let mut w = World::new(steps());
    let vs = vec![vec![hidden(); 4]; 4];
    let mut f = vec![1u8; FRAME_LEN];
    w.draw(&mut f, &vs);
    assert!(f.chunks(4).all(|p| p == [0, 60, 130, 255]));
}

#[test]
fn first_frame_keeps_list_order_and_sets_depths() {
    let mut w = World::new(steps());
    let mut vs = vec![vec![hidden(); 4]; 4];
    // sector 2 measures deepest, then sector 0
    vs[2][0].sum_x = 40;
    vs[0][1].sum_y = -20;
    let mut f = vec![0u8; FRAME_LEN];
    w.draw(&mut f, &vs);
    let starts: Vec<usize> = w.sectors.iter().map(|s| s.wall_start).collect();
    assert_eq!(starts, vec![0, 4, 8, 12]);
    let depths: Vec<i32> = w.sectors.iter().map(|s| s.distance).collect();
    assert_eq!(depths, vec![25, 0, 100, 0]);
    assert_eq!(w.draw_order(), vec![2, 0, 1, 3]);
    let vs2 = vec![vec![hidden(); 4]; 4];
    w.draw(&mut f, &vs2);
    let starts: Vec<usize> = w.sectors.iter().map(|s| s.wall_start).collect();
    assert_eq!(starts, vec![8, 0, 4, 12]);
    assert!(w.sectors.iter().all(|s| s.distance == 0));
}

#[test]
fn later_sector_paints_over_earlier() {
    let mut w = World::new(steps());
    let mut vs = vec![vec![hidden(); 4]; 4];
    let quad = WallView { sum_x: 0, sum_y: 0, visible: true, sx0: 10, sx1: 20, sy0: 10, sy1: 10, sy2: 20, sy3: 20 };
    vs[0][0] = quad;
    vs[1][0] = quad;
    let mut f = vec![0u8; FRAME_LEN];
    w.draw(&mut f, &vs);
    // wall 4 (sector 1) is drawn after wall 0 (sector 0)
    assert_eq!(rgb(&f, 15, 15), (0, 255, 0, 255));
}

#[test]
fn start_frame_keeps_alpha_opaque() {
    let mut w = World::new(steps());
    assert_eq!((w.player.x, w.player.y, w.player.z, w.player.angle, w.player.look), (70, -110, 20, 0, 0));
    let vs = views(&w);
    let mut f = vec![0u8; FRAME_LEN];
    w.draw(&mut f, &vs);
    assert!(f.chunks(4).all(|p| p[3] == 255));
    assert!(f.chunks(4).any(|p| p[..3] != [0, 60, 130]));
    assert!(w.sectors.iter().all(|s| s.distance >= 0));
}

#[test]
fn level_fixture() {
    let w = World::new(steps());
    assert_eq!(w.walls.len(), 16);
    assert_eq!(w.sectors.len(), 4);
    assert_eq!((w.walls[5].x1, w.walls[5].y1, w.walls[5].x2, w.walls[5].y2, w.walls[5].color), (96, 0, 96, 32, 3));
    assert_eq!((w.sectors[3].wall_start, w.sectors[3].wall_end, w.sectors[3].z1, w.sectors[3].z2), (12, 16, 0, 40));
}
