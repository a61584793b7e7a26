//! Grid validation, movement collision, casting and full frames.

use raycaster::color::RgbColor;
use raycaster::data::GameData;
use raycaster::fixed::FP_ONE;
use raycaster::grid::Grid;
use raycaster::motion::{apply_key, KEY_DOWN, KEY_LEFT, KEY_RIGHT, KEY_UP};
use raycaster::raycast::{cast_column, cast_ray};
use raycaster::texture::{FileTexture, Texture};
use raycaster::Game;

fn flat_bytes(w: usize, h: usize) -> Vec<u8> {
    let mut bytes = Vec::new();
    for i in 0..w * h {
        bytes.push((i % 251) as u8);
        bytes.push(33);
        bytes.push(44);
        bytes.push(255);
    }
    bytes
}

fn wall_texture() -> FileTexture {
    FileTexture::from_bytes(16, 16, &flat_bytes(16, 16)).unwrap()
}

fn sky_texture() -> FileTexture {
    FileTexture::from_bytes(360, 60, &flat_bytes(360, 60)).unwrap()
}

fn bordered_map(extra_wall: Option<(usize, usize)>) -> Grid {
    let mut rows: Vec<Vec<u8>> = Vec::new();
    for r in 0..10 {
        let mut row = Vec::new();
        for c in 0..10 {
            if r == 0 || r == 9 || c == 0 || c == 9 {
                row.push(1u8);
            } else {
                row.push(0u8);
            }
        }
        rows.push(row);
    }
    if let Some((r, c)) = extra_wall {
        rows[r][c] = 1;
    }
    Grid::from_rows(rows).unwrap()
}

fn scene_candidate(map: Grid, px: i64, py: i64, angle: i64) -> GameData {
    GameData {
        screen_width: 640,
        screen_height: 480,
        player_fov: 60 * FP_ONE,
        player_x: px,
        player_y: py,
        player_angle: angle,
        raycasting_precision: 64,
        map,
        player_speed_movement: 3277,
        player_speed_rotation: 3 * FP_ONE,
        player_radius: 10 * FP_ONE,
        scale: 4,
        textures: vec![Texture::File(wall_texture())],
        backgrounds: vec![sky_texture()],
    }
}

fn scene(map: Grid, px: i64, py: i64, angle: i64) -> GameData {
    GameData::validated(scene_candidate(map, px, py, angle)).unwrap()
}

#[test]
fn grid_rejects_an_open_border() {
    let mut rows = vec![vec![1u8; 5]; 5];
    rows[0][2] = 0;
    assert!(Grid::from_rows(rows).is_none());
}

#[test]
fn grid_rejects_ragged_rows() {
    let rows = vec![vec![1u8; 5], vec![1u8; 4], vec![1u8; 5]];
    assert!(Grid::from_rows(rows).is_none());
}

#[test]
fn grid_rejects_tiny_maps() {
    assert!(Grid::from_rows(vec![vec![1u8; 2]; 2]).is_none());
    assert!(Grid::from_rows(Vec::new()).is_none());
}

#[test]
fn grid_accepts_an_enclosed_map() {
    let g = bordered_map(None);
    assert_eq!(g.height(), 10);
    assert_eq!(g.width(), 10);
    assert_eq!(g.tile(0, 0), 1);
    assert_eq!(g.tile(5, 5), 0);
}

#[test]
fn validated_rejects_a_player_in_a_wall() {
    let map = bordered_map(None);
    let candidate = GameData {
        player_x: 0,
        player_y: 0,
        ..scene(map, 2 * FP_ONE, 2 * FP_ONE, 90 * FP_ONE)
    };
    assert!(GameData::validated(candidate).is_none());
}

#[test]
fn validated_rejects_a_runaway_speed() {
    let map = bordered_map(None);
    let candidate = GameData {
        player_speed_movement: FP_ONE,
        ..scene(map, 2 * FP_ONE, 2 * FP_ONE, 90 * FP_ONE)
    };
    assert!(GameData::validated(candidate).is_none());
}

#[test]
fn validated_rejects_wall_codes_without_textures() {
    let mut rows = vec![vec![2u8; 5]; 5];
    rows[2][2] = 0;
    let map = Grid::from_rows(rows).unwrap();
    let candidate = scene_candidate(map, (2 * FP_ONE) + FP_ONE / 2, (2 * FP_ONE) + FP_ONE / 2, 0);
    // tile code 2 would need a second wall texture
    assert!(GameData::validated(candidate).is_none());
}

#[test]
fn validated_normalizes_the_facing_angle() {
    let map = bordered_map(None);
    let d = scene(map, 2 * FP_ONE, 2 * FP_ONE, -90 * FP_ONE);
    assert_eq!(d.player_angle, 270 * FP_ONE);
}

#[test]
fn center_ray_hits_the_far_border() {
    // a 10 by 10 map bordered by tile code 1, empty inside; the player at
    // (2, 2) facing 90 degrees with a 60 degree field of view and 64
    // marching steps per tile: the center ray crosses the map and strikes
    // the border wall without leaving its own lane (coordinate 2)
    let map = bordered_map(None);
    let d = scene(map, 2 * FP_ONE, 2 * FP_ONE, 90 * FP_ONE);
    let ch = cast_column(&d, 80).unwrap();
    assert_eq!(ch.ray_angle, 90 * FP_ONE);
    assert_eq!(ch.hit.tile, 1);
    assert_eq!(ch.hit.x, 2 * FP_ONE);
    assert_eq!(ch.hit.x / FP_ONE, 2);
    assert_eq!(ch.hit.y / FP_ONE, 9);
    // the center ray keeps its raw distance through fisheye correction
    assert_eq!(ch.raw_distance, 7 * FP_ONE);
    assert_eq!(ch.corrected_distance, 7 * FP_ONE);
    assert_eq!(ch.wall_height, 60 * FP_ONE / (7 * FP_ONE));
    assert_eq!(ch.wall_height, 8);
    assert_eq!(ch.texture_index, 0);
}

#[test]
fn hit_distance_shrinks_as_the_player_closes_in() {
    let mut previous = i64::MAX;
    for step in 0..5 {
        let py = (2 + step) * FP_ONE;
        let d = scene(bordered_map(None), 2 * FP_ONE, py, 90 * FP_ONE);
        let ch = cast_column(&d, 80).unwrap();
        assert!(ch.raw_distance < previous);
        previous = ch.raw_distance;
    }
}

#[test]
fn march_reports_the_first_wall_sample() {
    let map = bordered_map(Some((5, 2)));
    // straight down column 2 from row 2: the pillar at row 5 comes first
    let hit = cast_ray(&map, 2 * FP_ONE, 2 * FP_ONE, 0, FP_ONE / 64, 100000).unwrap();
    assert_eq!(hit.tile, 1);
    assert_eq!(hit.y / FP_ONE, 5);
    assert_eq!(hit.x, 2 * FP_ONE);
}

#[test]
fn march_runs_out_of_budget_without_progress() {
    let map = bordered_map(None);
    assert!(cast_ray(&map, 2 * FP_ONE, 2 * FP_ONE, 0, 0, 1000).is_none());
}

#[test]
fn degenerate_precision_casts_no_column() {
    // with one step per 65536 sub-tiles, a diagonal ray's steps truncate
    // to zero and the march gives up instead of looping
    let map = bordered_map(None);
    let candidate = GameData {
        raycasting_precision: FP_ONE,
        ..scene_candidate(map, 2 * FP_ONE + FP_ONE / 2, 2 * FP_ONE + FP_ONE / 2, 45 * FP_ONE)
    };
    let d = GameData::validated(candidate).unwrap();
    assert!(cast_column(&d, 80).is_none());
}

#[test]
fn diagonal_move_into_a_corner_slides_along_one_axis() {
    // the tile at row 5, column 5 is solid; the player approaches it
    // diagonally from inside tile (4, 4): only one coordinate may change
    let map = bordered_map(Some((5, 5)));
    let start = 4 * FP_ONE + 64881;  // about 4.99 tiles
    let mut d = scene(map, start, start, 45 * FP_ONE);
    apply_key(&mut d, KEY_UP);
    assert_eq!(d.player_x, start);
    assert!(d.player_y > start);
}

#[test]
fn open_diagonal_move_changes_both_coordinates() {
    let map = bordered_map(None);
    let start = 4 * FP_ONE;
    let mut d = scene(map, start, start, 45 * FP_ONE);
    apply_key(&mut d, KEY_UP);
    assert!(d.player_x > start);
    assert!(d.player_y > start);
}

#[test]
fn backward_move_retreats() {
    let map = bordered_map(None);
    let start = 4 * FP_ONE;
    let mut d = scene(map, start, start, 45 * FP_ONE);
    apply_key(&mut d, KEY_DOWN);
    assert!(d.player_x < start);
    assert!(d.player_y < start);
}

#[test]
fn forward_move_stops_at_a_wall() {
    // facing east one step from the border: the probe sees the wall and
    // neither coordinate moves
    let map = bordered_map(None);
    let mut d = scene(map, 8 * FP_ONE + 13107, 5 * FP_ONE, 0);
    let x0 = d.player_x;
    for _ in 0..100 {
        apply_key(&mut d, KEY_UP);
    }
    // the player advanced but never entered the border tile
    assert!(d.player_x > x0);
    assert!(d.player_x / FP_ONE < 9);
    assert_eq!(d.player_y, 5 * FP_ONE);
}

#[test]
fn turning_wraps_the_angle() {
    let map = bordered_map(None);
    let mut d = scene(map, 2 * FP_ONE, 2 * FP_ONE, FP_ONE);
    apply_key(&mut d, KEY_LEFT);
    assert_eq!(d.player_angle, 358 * FP_ONE);
    apply_key(&mut d, KEY_RIGHT);
    assert_eq!(d.player_angle, FP_ONE);
}

#[test]
fn unknown_keys_change_nothing() {
    let map = bordered_map(None);
    let mut d = scene(map, 2 * FP_ONE, 2 * FP_ONE, 90 * FP_ONE);
    let (x, y, a) = (d.player_x, d.player_y, d.player_angle);
    apply_key(&mut d, 0);
    apply_key(&mut d, 13);
    assert_eq!((d.player_x, d.player_y, d.player_angle), (x, y, a));
}

#[test]
fn frame_buffer_has_four_bytes_per_projection_pixel() {
    let game = Game::new(wall_texture(), sky_texture());
    assert_eq!(game.data().projection_width(), 160);
    assert_eq!(game.data().projection_height(), 120);
    assert_eq!(game.screen_buffer_len(), 4 * 160 * 120);
    assert_eq!(game.screen_buffer().len(), 4 * 160 * 120);
}

#[test]
fn pixel_writes_past_the_right_edge_are_dropped() {
    let mut game = Game::new(wall_texture(), sky_texture());
    let before = game.screen_buffer().clone();
    game.draw_pixel(160, 0, RgbColor::rgb(1, 2, 3));
    assert_eq!(game.screen_buffer(), &before);
    game.draw_pixel(0, 120, RgbColor::rgb(1, 2, 3));
    assert_eq!(game.screen_buffer(), &before);
}

#[test]
fn pixel_writes_inside_the_frame_land_in_place() {
    let mut game = Game::new(wall_texture(), sky_texture());
    game.draw_pixel(3, 2, RgbColor::rgb(9, 8, 7));
    let offset = 4 * (3 + 2 * 160);
    let buf = game.screen_buffer();
    assert_eq!(&buf[offset..offset + 4], &[9, 8, 7, 255]);
    assert_eq!(buf[offset + 4], 125);
    assert_eq!(buf[offset - 1], 125);
}

#[test]
fn tick_applies_held_turns() {
    let mut game = Game::new(wall_texture(), sky_texture());
    game.set_input(0, KEY_RIGHT);
    game.tick();
    assert_eq!(game.data().player_angle, 93 * FP_ONE);
    game.set_input(0, 0);
    game.tick();
    assert_eq!(game.data().player_angle, 93 * FP_ONE);
}

#[test]
fn tick_paints_the_floor_below_the_walls() {
    let mut game = Game::new(wall_texture(), sky_texture());
    game.tick();
    let buf = game.screen_buffer();
    assert_eq!(buf.len(), 4 * 160 * 120);
    // the bottom row of every column is flat floor color
    for x in [0usize, 80, 159] {
        let offset = 4 * (x + 119 * 160);
        assert_eq!(&buf[offset..offset + 4], &[95, 87, 79, 255]);
    }
}

#[test]
fn tick_keeps_the_buffer_length() {
    let mut game = Game::new(wall_texture(), sky_texture());
    for _ in 0..3 {
        game.set_input(0, KEY_UP);
        game.set_input(1, KEY_RIGHT);
        game.tick();
        assert_eq!(game.screen_buffer().len(), 4 * 160 * 120);
    }
}

#[test]
fn default_scene_has_the_documented_geometry() {
    let game = Game::new(wall_texture(), sky_texture());
    let d = game.data();
    assert_eq!(d.screen_width(), 640);
    assert_eq!(d.screen_height(), 480);
    assert_eq!(d.scale(), 4);
    assert_eq!(d.half_width(), 320);
    assert_eq!(d.half_height(), 240);
    assert_eq!(d.projection_half_width(), 80);
    assert_eq!(d.projection_half_height(), 60);
    assert_eq!(d.player_half_fov(), 30 * FP_ONE);
    // 60 degrees spread over 160 columns: 0.375 degrees per column
    assert_eq!(d.increment_angle(), 24576);
    assert_eq!(d.player_x(), 2 * FP_ONE);
    assert_eq!(d.player_y(), 2 * FP_ONE);
    assert_eq!(d.player_angle, 90 * FP_ONE);
}

#[test]
fn line_paints_exactly_its_span() {
    let mut game = Game::new(wall_texture(), sky_texture());
    game.draw_line(2, 10, 12, RgbColor::rgb(4, 5, 6));
    let buf = game.screen_buffer();
    for y in [10usize, 11] {
        let offset = 4 * (2 + y * 160);
        assert_eq!(&buf[offset..offset + 4], &[4, 5, 6, 255]);
    }
    for (x, y) in [(2usize, 9usize), (2, 12), (1, 10), (3, 11)] {
        let offset = 4 * (x + y * 160);
        assert_eq!(&buf[offset..offset + 4], &[125, 125, 125, 125]);
    }
}

#[test]
fn wall_slice_samples_one_texture_column() {
    let mut game = Game::new(wall_texture(), sky_texture());
    // the built-in palette texture, fixed column 0, half-height 8: the
    // slice spans rows 52 to 68, two rows per texel row
    game.draw_texture(5, 8, 0, 0);
    let buf = game.screen_buffer();
    let white = [255u8, 255, 255, 255];
    let black = [0u8, 0, 0, 255];
    // bitmap column 0 alternates palette entries 1 and 0 by texel row
    for (y, want) in [(52usize, white), (53, white), (54, black), (55, black), (64, white), (67, black)] {
        let offset = 4 * (5 + y * 160);
        assert_eq!(&buf[offset..offset + 4], &want, "row {}", y);
    }
    for y in [51usize, 68] {
        let offset = 4 * (5 + y * 160);
        assert_eq!(&buf[offset..offset + 4], &[125, 125, 125, 125]);
    }
}

#[test]
fn background_column_paints_per_row_samples() {
    let mut game = Game::new(wall_texture(), sky_texture());
    // facing 90 degrees, column 7: the horizontal offset is 97; sample
    // rows 0 and 1 directly against the texture
    game.draw_background(7, 0, 2, 0);
    let bg = sky_texture();
    let buf = game.screen_buffer();
    for y in [0usize, 1] {
        let want = raycaster::texture::background_sample(&bg, (90 + 7) * FP_ONE, y);
        let offset = 4 * (7 + y * 160);
        assert_eq!(buf[offset], want.red);
        assert_eq!(buf[offset + 1], want.green);
        assert_eq!(buf[offset + 2], want.blue);
        assert_eq!(buf[offset + 3], want.alpha);
    }
    // the row below the painted run keeps the fresh-buffer fill
    let offset = 4 * (7 + 2 * 160);
    assert_eq!(&buf[offset..offset + 4], &[125, 125, 125, 125]);
}

#[test]
fn input_slots_hold_the_last_key_set() {
    let mut game = Game::new(wall_texture(), sky_texture());
    game.set_input(3, KEY_UP);
    game.set_input(3, KEY_LEFT);
    game.set_input(15, KEY_DOWN);
    assert_eq!(game.held_inputs[3], KEY_LEFT);
    assert_eq!(game.held_inputs[15], KEY_DOWN);
    assert_eq!(game.held_inputs[0], 0);
}

#[test]
fn default_scene_ships_the_builtin_palette_texture() {
    let game = Game::new(wall_texture(), sky_texture());
    assert_eq!(game.data().textures.len(), 2);
    match &game.data().textures[0] {
        Texture::InMemory(p) => {
            assert_eq!(p.width, 8);
            assert_eq!(p.height, 8);
            assert_eq!(p.colors, vec![RgbColor::rgb(0, 0, 0), RgbColor::rgb(255, 255, 255)]);
            // solid rows alternate with sparse ones
            assert_eq!(p.bitmap[0], vec![1u8; 8]);
            assert_eq!(p.bitmap[1], vec![0u8, 0, 0, 1, 0, 0, 0, 1]);
            assert_eq!(p.bitmap[3], vec![0u8, 1, 0, 0, 0, 1, 0, 0]);
        },
        Texture::File(_) => panic!("the first wall texture is the built-in palette"),
    }
    match &game.data().textures[1] {
        Texture::File(t) => assert_eq!((t.width, t.height), (16, 16)),
        Texture::InMemory(_) => panic!("the second wall texture is the loaded one"),
    }
}
