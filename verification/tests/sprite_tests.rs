use gridcaster::guard::Guard;
use gridcaster::level::parse_level;
use gridcaster::level::Cell;
use gridcaster::level::Grid;
use gridcaster::sprite::collect_sprites;
use gridcaster::sprite::draw_sprite_animated;
use gridcaster::sprite::draw_world_sprites;
use gridcaster::sprite::has_wall_between;
use gridcaster::sprite::sort_far_to_near;
use gridcaster::sprite::wave_angles;
use gridcaster::sprite::wrapped_angle;
use gridcaster::renderer::Screen;
use gridcaster::sprite::Sprite;
use gridcaster::sprite::SpriteAnim;
use gridcaster::sprite::SpriteDraw;
use gridcaster::renderer::TextureId;
use gridcaster::sprite::SPRITE_CAP;

const CELL: i64 = 64_000;

fn screen() -> Screen {
    Screen { width: 1024, height: 640 }
}

fn folder(x: i64, y: i64) -> Sprite {
    Sprite { x, y, texture: TextureId::Folder, anim: SpriteAnim::Folder }
}

fn guard1(x: i64, y: i64) -> Sprite {
    Sprite { x, y, texture: TextureId::Guard1, anim: SpriteAnim::Guard }
}

fn guard2(x: i64, y: i64) -> Sprite {
    Sprite { x, y, texture: TextureId::Guard2, anim: SpriteAnim::Guard }
}

fn marked() -> Grid {
    parse_level("+++++++\n+f G H+\n+  f  +\n+++++++")
}

fn guards() -> Vec<Guard> {
    vec![
        Guard::new(100_000, 150_000, Cell::Guard1),
        Guard::new(300_000, 100_000, Cell::Guard2),
        Guard::new(120_000, 120_000, Cell::Floor),
    ]
}

#[test]
fn sprites_of_tiles_come_before_those_of_guards() {
    let sprites = collect_sprites(&marked(), CELL, &guards());
    assert_eq!(
        sprites,
        vec![
            folder(96_000, 96_000),
            guard1(224_000, 96_000),
            guard2(352_000, 96_000),
            folder(224_000, 160_000),
            guard1(100_000, 150_000),
            guard2(300_000, 100_000),
        ]
    );
}

#[test]
fn sprites_are_drawn_from_far_to_near() {
    let sprites = draw_world_sprites(&marked(), CELL, 96_000, 160_000, &guards());
    assert_eq!(
        sprites,
        vec![
            guard2(352_000, 96_000),
            guard2(300_000, 100_000),
            guard1(224_000, 96_000),
            folder(224_000, 160_000),
            folder(96_000, 96_000),
            guard1(100_000, 150_000),
        ]
    );
}

#[test]
fn sprites_equally_far_keep_their_order() {
    let sprites = vec![folder(10, 0), guard1(0, 10), guard2(-10, 0), folder(0, 5), folder(0, -10)];
    let sorted = sort_far_to_near(&sprites, 0, 0);
    assert_eq!(sorted, vec![folder(10, 0), guard1(0, 10), guard2(-10, 0), folder(0, -10), folder(0, 5)]);
    assert_eq!(sort_far_to_near(&Vec::new(), 0, 0), vec![]);
}

#[test]
fn sorting_keeps_every_sprite() {
    let mut sprites = Vec::new();
    let mut seed: i64 = 12345;
    for _ in 0..200 {
        seed = (seed * 1_103_515_245 + 12_345) % 2_147_483_648;
        let x = seed % 1000;
        seed = (seed * 1_103_515_245 + 12_345) % 2_147_483_648;
        let y = seed % 1000;
        sprites.push(folder(x, y));
    }
    let sorted = sort_far_to_near(&sprites, 500, 500);
    assert_eq!(sorted.len(), 200);
    let d = |s: &Sprite| (s.x - 500) * (s.x - 500) + (s.y - 500) * (s.y - 500);
    for pair in sorted.windows(2) {
        assert!(d(&pair[0]) >= d(&pair[1]));
    }
    let key = |s: &Sprite| (s.x, s.y);
    let mut a: Vec<(i64, i64)> = sprites.iter().map(key).collect();
    let mut b: Vec<(i64, i64)> = sorted.iter().map(key).collect();
    a.sort();
    b.sort();
    assert_eq!(a, b);
}

#[test]
fn no_more_sprites_than_the_cap() {
    assert_eq!(SPRITE_CAP, 65);
    let row: String = "f".repeat(70);
    let grid = parse_level(&row);
    let sprites = draw_world_sprites(&grid, CELL, 0, 32_000, &Vec::new());
    assert_eq!(sprites.len(), 65);
    // the five farthest are left out; the nearest is drawn last
    assert_eq!(sprites[0], folder(64 * CELL + CELL / 2, 32_000));
    assert_eq!(sprites[64], folder(CELL / 2, 32_000));
    let few = parse_level("fff");
    assert_eq!(draw_world_sprites(&few, CELL, 0, 32_000, &Vec::new()).len(), 3);
}

fn corridor() -> Grid {
    parse_level("+++++++++\n+       +\n+   +   +\n+       +\n+++++++++")
}

#[test]
fn wall_between_two_points() {
    let grid = corridor();
    assert!(has_wall_between(&grid, CELL, 160_000, 160_000, 416_000, 160_000));
    assert!(!has_wall_between(&grid, CELL, 160_000, 160_000, 224_000, 160_000));
    assert!(!has_wall_between(&grid, CELL, 160_000, 100_000, 416_000, 100_000));
    assert!(!has_wall_between(&grid, CELL, 160_000, 160_000, 160_000, 160_000));
    // the probes stop short of the far point: a point in the wall's first quarter is seen
    assert!(!has_wall_between(&grid, CELL, 160_000, 160_000, 271_999, 160_000));
    assert!(has_wall_between(&grid, CELL, 160_000, 160_000, 272_000, 160_000));
    // only walls hide
    let odd = parse_level("  x  ");
    assert!(!has_wall_between(&odd, CELL, 32_000, 32_000, 288_000, 32_000));
}

#[test]
fn angles_wrap_by_whole_turns() {
    assert_eq!(wrapped_angle(0), 0);
    assert_eq!(wrapped_angle(3_141_593), 3_141_593);
    assert_eq!(wrapped_angle(3_141_594), 3_141_594 - 6_283_185);
    assert_eq!(wrapped_angle(-3_141_593), -3_141_593);
    assert_eq!(wrapped_angle(-3_141_594), 3_141_591);
    assert_eq!(wrapped_angle(6_283_185), 0);
    assert_eq!(wrapped_angle(-6_283_185), 0);
    assert_eq!(wrapped_angle(10 * 6_283_185 + 17), 17);
    assert_eq!(wrapped_angle(-10 * 6_283_185 - 17), -17);
    assert_eq!(wrapped_angle(9_424_778), 3_141_593);
    assert_eq!(wrapped_angle(9_424_779), -3_141_591);
}

#[test]
fn waves_depend_on_kind_time_and_place() {
    assert_eq!(wave_angles(&folder(0, 0), 1_000_000), (3_000_000, 4_000_000));
    assert_eq!(wave_angles(&guard1(0, 0), 1_000_000), (2_000_000, 2_000_000));
    // a twentieth of a radian for each world unit of x + y
    assert_eq!(wave_angles(&folder(1_000, 2_000), 0), (150_000, 150_000));
    assert_eq!(wave_angles(&guard2(96_000, 160_000), 500_000), (13_800_000, 13_800_000));
}

fn open_room() -> Grid {
    parse_level("+++++++++\n+       +\n+       +\n+       +\n+++++++++")
}

fn view(grid: &Grid, sprite: Sprite, angle: i64, pulse: i64, bob: i64) -> Option<SpriteDraw> {
    draw_sprite_animated(grid, CELL, 160_000, 160_000, 0, &sprite, angle, pulse, bob, screen())
}

#[test]
fn sprite_straight_ahead() {
    let grid = open_room();
    let f = folder(352_000, 160_000);
    assert_eq!(
        view(&grid, f, 0, 0, 0),
        Some(SpriteDraw { x: 406, y: 213, size: 213, texture: TextureId::Folder })
    );
    assert_eq!(
        view(&grid, f, 0, 1000, -1000),
        Some(SpriteDraw { x: 385, y: 186, size: 255, texture: TextureId::Folder })
    );
    assert_eq!(
        view(&grid, f, 0, -500, 500),
        Some(SpriteDraw { x: 417, y: 227, size: 191, texture: TextureId::Folder })
    );
    let g = guard1(352_000, 160_000);
    assert_eq!(
        view(&grid, g, 0, 1000, 1000),
        Some(SpriteDraw { x: 401, y: 211, size: 223, texture: TextureId::Guard1 })
    );
    assert_eq!(
        view(&grid, g, 0, -1000, -1000),
        Some(SpriteDraw { x: 411, y: 216, size: 202, texture: TextureId::Guard1 })
    );
}

#[test]
fn sprite_outside_the_field_of_view_is_not_drawn() {
    let grid = open_room();
    let g = guard1(352_000, 160_000);
    assert_eq!(
        view(&grid, g, 523_599, 0, 0),
        Some(SpriteDraw { x: 918, y: 213, size: 213, texture: TextureId::Guard1 })
    );
    assert_eq!(view(&grid, g, 523_600, 0, 0), None);
    assert_eq!(
        view(&grid, g, -523_599, 0, 0),
        Some(SpriteDraw { x: -106, y: 213, size: 213, texture: TextureId::Guard1 })
    );
    assert_eq!(view(&grid, g, -523_600, 0, 0), None);
    assert_eq!(view(&grid, g, 3_141_593, 0, 0), None);
}

#[test]
fn sprite_angle_is_taken_from_the_facing() {
    let grid = open_room();
    let g = guard1(352_000, 160_000);
    let turned =
        draw_sprite_animated(&grid, CELL, 160_000, 160_000, 6_283_185, &g, 0, 0, 0, screen());
    assert_eq!(turned, Some(SpriteDraw { x: 406, y: 213, size: 213, texture: TextureId::Guard1 }));
    let back =
        draw_sprite_animated(&grid, CELL, 160_000, 160_000, -3_000_000, &g, 3_283_184, 0, 0, screen());
    assert_eq!(back, Some(SpriteDraw { x: 405, y: 213, size: 213, texture: TextureId::Guard1 }));
}

#[test]
fn sprite_too_near_is_not_drawn() {
    let grid = open_room();
    assert_eq!(view(&grid, folder(167_999, 160_000), 0, 0, 0), None);
    assert_eq!(
        view(&grid, folder(168_000, 160_000), 0, 0, 0),
        Some(SpriteDraw { x: -128, y: -320, size: 1280, texture: TextureId::Folder })
    );
    assert_eq!(
        view(&grid, folder(200_000, 160_000), -523_599, 1000, 1000),
        Some(SpriteDraw { x: -614, y: -288, size: 1228, texture: TextureId::Folder })
    );
}

#[test]
fn sprite_behind_a_wall_is_not_drawn() {
    let grid = corridor();
    assert_eq!(view(&grid, folder(416_000, 160_000), 0, 0, 0), None);
    assert!(view(&grid, folder(224_000, 160_000), 0, 0, 0).is_some());
}

#[test]
fn tiny_sprite_at_the_right_edge_is_not_drawn() {
    let open = parse_level(" ");
    let far = folder(30_000_000, 0);
    let seen = draw_sprite_animated(&open, CELL, 0, 0, 0, &far, 523_599, 0, 0, screen());
    assert_eq!(seen, None);
    let inside = draw_sprite_animated(&open, CELL, 0, 0, 0, &far, 523_000, 0, 0, screen());
    assert_eq!(inside, Some(SpriteDraw { x: 1023, y: 319, size: 1, texture: TextureId::Folder }));
}
