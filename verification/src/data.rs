//! Game configuration and state: screen and projection geometry, the
//! player, the grid, and the texture tables.
//!
//! Fractional quantities (positions, angles, speeds) are 16.16 fixed-point
//! values; screen dimensions and the downsampling scale are plain pixels.

use vstd::prelude::*;

verus! {

use crate::color::RgbColor;
use crate::fixed::{FP_ONE, DEG_FULL, div_floor, euclid_mod, fx_floor};
use crate::grid::{Grid, grid_wf, grid_tile};
use crate::texture::{FileTexture, InMemoryTexture, Texture};

/// The whole game state: view geometry, player, grid and textures.
pub struct GameData {
    /// Output surface width, in pixels.
    pub screen_width: usize,
    /// Output surface height, in pixels.
    pub screen_height: usize,
    /// Field of view, in fixed-point degrees.
    pub player_fov: i64,
    /// Player position, in fixed-point grid units.
    pub player_x: i64,
    /// Player position, in fixed-point grid units.
    pub player_y: i64,
    /// Facing angle, in fixed-point degrees, normalized into [0, 360).
    pub player_angle: i64,
    /// Ray-march sub-steps per grid unit; the step length is its inverse.
    pub raycasting_precision: i64,
    /// The tile grid.
    pub map: Grid,
    /// Movement speed, in fixed-point grid units per tick.
    pub player_speed_movement: i64,
    /// Rotation speed, in fixed-point degrees per tick.
    pub player_speed_rotation: i64,
    /// Collision look-ahead factor applied to the movement displacement.
    pub player_radius: i64,
    /// Downsampling factor: rays are cast at `screen / scale` resolution.
    pub scale: usize,
    /// Wall textures; a wall tile code `t` uses texture `t - 1`.
    pub textures: Vec<Texture>,
    /// Background (sky) textures.
    pub backgrounds: Vec<FileTexture>,
}

impl GameData {
    /// Everything the pipeline relies on: an enclosed grid whose wall codes
    /// index the texture table, bounded geometry, a normalized angle, a
    /// movement step small enough that one move crosses at most one tile
    /// boundary per axis, and the player standing in an open tile.
    pub open spec fn wf(&self) -> bool {
        &&& grid_wf(self.map@)
        &&& Grid::codes_bounded(self.map@, self.textures@.len() as int)
        &&& 1 <= self.scale
        &&& self.scale <= self.screen_width <= 16384
        &&& self.scale <= self.screen_height <= 16384
        &&& 0 < self.player_fov <= 179 * FP_ONE
        &&& 0 <= self.player_angle < DEG_FULL
        &&& 1 <= self.raycasting_precision <= FP_ONE
        &&& 0 <= self.player_speed_movement
        &&& 0 <= self.player_radius <= 1024 * FP_ONE
        &&& self.player_speed_movement + self.player_speed_movement * self.player_radius / (
        FP_ONE as int) + 2 <= FP_ONE
        &&& 0 <= self.player_speed_rotation < DEG_FULL
        &&& 0 <= self.player_x
        &&& 0 <= self.player_y
        &&& grid_tile(
            self.map@,
            self.player_y as int / FP_ONE as int,
            self.player_x as int / FP_ONE as int,
        ) == 0
        &&& forall|i: int| 0 <= i < self.textures@.len() ==> (#[trigger] self.textures@[i]).wf()
        &&& 1 <= self.backgrounds@.len()
        &&& forall|i: int|
            0 <= i < self.backgrounds@.len() ==> (#[trigger] self.backgrounds@[i]).wf()
    }

    /// Raycasting resolution: screen width over the scale factor.
    pub open spec fn spec_projection_width(&self) -> int {
        self.screen_width as int / self.scale as int
    }

    /// Raycasting resolution: screen height over the scale factor.
    pub open spec fn spec_projection_height(&self) -> int {
        self.screen_height as int / self.scale as int
    }

    /// Half the projection height, the horizon row.
    pub open spec fn spec_projection_half_height(&self) -> int {
        self.spec_projection_height() / 2
    }

    /// Half the field of view, in fixed-point degrees.
    pub open spec fn spec_half_fov(&self) -> int {
        self.player_fov as int / 2
    }

    /// Angle between adjacent column rays, in fixed-point degrees.
    pub open spec fn spec_increment_angle(&self) -> int {
        self.player_fov as int / self.spec_projection_width()
    }

    /// Screen width in pixels.
    pub fn screen_width(&self) -> (w: usize)
        ensures
            w == self.screen_width,
    {
        self.screen_width
    }

    /// Screen height in pixels.
    pub fn screen_height(&self) -> (h: usize)
        ensures
            h == self.screen_height,
    {
        self.screen_height
    }

    /// Player x position, in fixed-point grid units.
    pub fn player_x(&self) -> (x: i64)
        ensures
            x == self.player_x,
    {
        self.player_x
    }

    /// Player y position, in fixed-point grid units.
    pub fn player_y(&self) -> (y: i64)
        ensures
            y == self.player_y,
    {
        self.player_y
    }

    /// Half the screen width, in pixels.
    pub fn half_width(&self) -> (w: usize)
        ensures
            w == self.screen_width as int / 2,
    {
        self.screen_width / 2
    }

    /// Half the screen height, in pixels.
    pub fn half_height(&self) -> (h: usize)
        ensures
            h == self.screen_height as int / 2,
    {
        self.screen_height / 2
    }

    /// Half the field of view, in fixed-point degrees.
    pub fn player_half_fov(&self) -> (a: i64)
        requires
            self.wf(),
        ensures
            a == self.spec_half_fov(),
            0 <= a <= self.player_fov,
    {
        div_floor(self.player_fov, 2)
    }

    /// The downsampling scale factor.
    pub fn scale(&self) -> (s: usize)
        ensures
            s == self.scale,
    {
        self.scale
    }

    /// Raycasting resolution width; at least one column.
    pub fn projection_width(&self) -> (w: usize)
        requires
            self.wf(),
        ensures
            w == self.spec_projection_width(),
            1 <= w <= self.screen_width,
    {
        proof {
            assert(1 <= self.screen_width as int / self.scale as int <= self.screen_width)
                by (nonlinear_arith)
                requires
                    1 <= self.scale,
                    self.scale <= self.screen_width,
            ;
        }
        self.screen_width / self.scale
    }

    /// Raycasting resolution height; at least one row.
    pub fn projection_height(&self) -> (h: usize)
        requires
            self.wf(),
        ensures
            h == self.spec_projection_height(),
            1 <= h <= self.screen_height,
    {
        proof {
            assert(1 <= self.screen_height as int / self.scale as int <= self.screen_height)
                by (nonlinear_arith)
                requires
                    1 <= self.scale,
                    self.scale <= self.screen_height,
            ;
        }
        self.screen_height / self.scale
    }

    /// Half the projection width.
    pub fn projection_half_width(&self) -> (w: usize)
        requires
            self.wf(),
        ensures
            w == self.spec_projection_width() / 2,
    {
        self.projection_width() / 2
    }

    /// Half the projection height, the horizon row.
    pub fn projection_half_height(&self) -> (h: usize)
        requires
            self.wf(),
        ensures
            h == self.spec_projection_half_height(),
    {
        self.projection_height() / 2
    }

    /// Angle between adjacent column rays: the field of view spread evenly
    /// over the projection columns.
    pub fn increment_angle(&self) -> (a: i64)
        requires
            self.wf(),
        ensures
            a == self.spec_increment_angle(),
            0 <= a <= self.player_fov,
    {
        let w = self.projection_width();
        let a = div_floor(self.player_fov, w as i64);
        proof {
            assert(0 <= self.player_fov as int / w as int <= self.player_fov)
                by (nonlinear_arith)
                requires
                    1 <= w,
                    0 < self.player_fov,
            ;
        }
        a
    }

    /// The conditions `validated` checks: everything `wf` asks of freely
    /// assembled state, with the facing angle allowed to be any
    /// representable value (it is normalized rather than rejected).
    pub open spec fn spec_coherent(data: GameData) -> bool {
        &&& Grid::codes_bounded(data.map@, data.textures@.len() as int)
        &&& 1 <= data.scale
        &&& data.scale <= data.screen_width <= 16384
        &&& data.scale <= data.screen_height <= 16384
        &&& 0 < data.player_fov <= 179 * FP_ONE
        &&& i64::MIN < data.player_angle
        &&& 1 <= data.raycasting_precision <= FP_ONE
        &&& 0 <= data.player_speed_movement
        &&& 0 <= data.player_radius <= 1024 * FP_ONE
        &&& data.player_speed_movement + data.player_speed_movement * data.player_radius / (
        FP_ONE as int) + 2 <= FP_ONE
        &&& 0 <= data.player_speed_rotation < DEG_FULL
        &&& 0 <= data.player_x
        &&& 0 <= data.player_y
        &&& grid_tile(
            data.map@,
            data.player_y as int / FP_ONE as int,
            data.player_x as int / FP_ONE as int,
        ) == 0
        &&& forall|i: int| 0 <= i < data.textures@.len() ==> (#[trigger] data.textures@[i]).wf()
        &&& 1 <= data.backgrounds@.len()
        &&& forall|i: int|
            0 <= i < data.backgrounds@.len() ==> (#[trigger] data.backgrounds@[i]).wf()
    }

    /// Validates freely assembled state, normalizing the facing angle on
    /// the way: the proper place to reject a malformed scene is when it is
    /// built, not during a frame. Returns the state exactly when it is
    /// coherent.
    pub fn validated(data: GameData) -> (result: Option<GameData>)
        ensures
            result is Some <==> Self::spec_coherent(data),
            match result {
                Some(d) => {
                    &&& d.wf()
                    &&& d.player_angle == data.player_angle as int % DEG_FULL as int
                    &&& d == (GameData { player_angle: d.player_angle, ..data })
                },
                None => true,
            },
    {
        proof {
            use_type_invariant(&data.map);
        }
        if data.scale < 1 || data.screen_width < data.scale || data.screen_width > 16384
            || data.screen_height < data.scale || data.screen_height > 16384 {
            return None;
        }
        if data.player_fov <= 0 || data.player_fov > 179 * FP_ONE {
            return None;
        }
        if data.player_angle == i64::MIN {
            return None;
        }
        if data.raycasting_precision < 1 || data.raycasting_precision > FP_ONE {
            return None;
        }
        if data.player_speed_movement < 0 || data.player_speed_movement > FP_ONE
            || data.player_radius < 0 || data.player_radius > 1024 * FP_ONE {
            return None;
        }
        proof {
            assert(data.player_speed_movement * data.player_radius <= 0x400_0000_0000)
                by (nonlinear_arith)
                requires
                    0 <= data.player_speed_movement <= 65536,
                    0 <= data.player_radius <= 67108864,
            ;
            assert(0 <= data.player_speed_movement * data.player_radius) by (nonlinear_arith)
                requires
                    0 <= data.player_speed_movement,
                    0 <= data.player_radius,
            ;
        }
        let slack = data.player_speed_movement + div_floor(
            data.player_speed_movement * data.player_radius,
            FP_ONE,
        ) + 2;
        if slack > FP_ONE {
            return None;
        }
        if data.player_speed_rotation < 0 || data.player_speed_rotation >= DEG_FULL {
            return None;
        }
        if data.player_x < 0 || data.player_y < 0 {
            return None;
        }
        let w = data.map.width();
        let h = data.map.height();
        if data.player_x >= (w as i64) * FP_ONE || data.player_y >= (h as i64) * FP_ONE {
            proof {
                lemma_floor_out_of_range(data.player_x as int, w as int);
                lemma_floor_out_of_range(data.player_y as int, h as int);
            }
            return None;
        }
        proof {
            crate::fixed::lemma_floor_in_grid(data.player_x as int, w as int);
            crate::fixed::lemma_floor_in_grid(data.player_y as int, h as int);
        }
        let col = fx_floor(data.player_x);
        let row = fx_floor(data.player_y);
        if data.map.tile(row, col) != 0 {
            return None;
        }
        if !data.map.check_codes(data.textures.len()) {
            return None;
        }
        let mut i: usize = 0;
        while i < data.textures.len()
            invariant
                i <= data.textures@.len(),
                forall|j: int| 0 <= j < i ==> (#[trigger] data.textures@[j]).wf(),
            decreases data.textures@.len() - i,
        {
            if !data.textures[i].check() {
                return None;
            }
            i = i + 1;
        }
        if data.backgrounds.len() < 1 {
            return None;
        }
        let mut i: usize = 0;
        while i < data.backgrounds.len()
            invariant
                i <= data.backgrounds@.len(),
                forall|j: int| 0 <= j < i ==> (#[trigger] data.backgrounds@[j]).wf(),
            decreases data.backgrounds@.len() - i,
        {
            if !data.backgrounds[i].check() {
                return None;
            }
            i = i + 1;
        }
        let angle = euclid_mod(data.player_angle, DEG_FULL);
        Some(GameData { player_angle: angle, ..data })
    }
}

/// The built-in grid of the default scene.
pub open spec fn default_grid() -> Seq<Seq<u8>> {
    seq![
        seq![2u8, 2u8, 1u8, 1u8, 1u8, 2u8, 2u8, 2u8, 2u8, 2u8],
        seq![2u8, 0u8, 0u8, 0u8, 0u8, 0u8, 0u8, 0u8, 0u8, 2u8],
        seq![2u8, 0u8, 0u8, 0u8, 0u8, 0u8, 0u8, 0u8, 0u8, 2u8],
        seq![2u8, 0u8, 0u8, 1u8, 1u8, 0u8, 2u8, 0u8, 0u8, 2u8],
        seq![2u8, 0u8, 0u8, 2u8, 0u8, 0u8, 2u8, 0u8, 0u8, 2u8],
        seq![2u8, 0u8, 0u8, 2u8, 0u8, 0u8, 2u8, 0u8, 0u8, 2u8],
        seq![2u8, 0u8, 0u8, 2u8, 0u8, 2u8, 2u8, 0u8, 0u8, 2u8],
        seq![2u8, 0u8, 0u8, 0u8, 0u8, 0u8, 0u8, 0u8, 0u8, 2u8],
        seq![2u8, 0u8, 0u8, 0u8, 0u8, 0u8, 0u8, 0u8, 0u8, 2u8],
        seq![2u8, 2u8, 2u8, 2u8, 2u8, 2u8, 2u8, 2u8, 2u8, 2u8],
    ]
}

/// The bitmap of the default scene's built-in palette texture.
pub open spec fn default_palette_bitmap() -> Seq<Seq<u8>> {
    seq![
        seq![1u8, 1u8, 1u8, 1u8, 1u8, 1u8, 1u8, 1u8],
        seq![0u8, 0u8, 0u8, 1u8, 0u8, 0u8, 0u8, 1u8],
        seq![1u8, 1u8, 1u8, 1u8, 1u8, 1u8, 1u8, 1u8],
        seq![0u8, 1u8, 0u8, 0u8, 0u8, 1u8, 0u8, 0u8],
        seq![1u8, 1u8, 1u8, 1u8, 1u8, 1u8, 1u8, 1u8],
        seq![0u8, 0u8, 0u8, 1u8, 0u8, 0u8, 0u8, 1u8],
        seq![1u8, 1u8, 1u8, 1u8, 1u8, 1u8, 1u8, 1u8],
        seq![0u8, 1u8, 0u8, 0u8, 0u8, 1u8, 0u8, 0u8],
    ]
}

/// The two colors of the default scene's built-in palette: black and
/// white.
pub open spec fn default_palette_colors() -> Seq<RgbColor> {
    seq![
        RgbColor { red: 0, green: 0, blue: 0, alpha: 255 },
        RgbColor { red: 255, green: 255, blue: 255, alpha: 255 },
    ]
}

/// Whether a texture is the default scene's built-in 8 by 8 black and
/// white palette texture, down to every bitmap cell and palette entry.
pub open spec fn is_default_palette(t: Texture) -> bool {
    match t {
        Texture::InMemory(p) => {
            &&& p.width == 8
            &&& p.height == 8
            &&& p.bitmap@.map_values(|row: Vec<u8>| row@) == default_palette_bitmap()
            &&& p.colors@ == default_palette_colors()
        },
        Texture::File(_) => false,
    }
}

/// The default scene's settings: the built-in grid, two wall textures
/// (the built-in palette texture and the loaded one), one background, and
/// the default view and player parameters.
pub open spec fn spec_is_default_scene(
    d: GameData,
    wall_texture: FileTexture,
    background: FileTexture,
) -> bool {
    &&& d.screen_width == 640
    &&& d.screen_height == 480
    &&& d.scale == 4
    &&& d.player_fov == 60 * FP_ONE
    &&& d.player_x == 2 * FP_ONE
    &&& d.player_y == 2 * FP_ONE
    &&& d.player_angle == 90 * FP_ONE
    &&& d.raycasting_precision == 64
    &&& d.player_speed_movement == 3277
    &&& d.player_speed_rotation == 3 * FP_ONE
    &&& d.player_radius == 10 * FP_ONE
    &&& d.map@ == default_grid()
    &&& d.textures@.len() == 2
    &&& is_default_palette(d.textures@[0])
    &&& d.textures@[1] == Texture::File(wall_texture)
    &&& d.backgrounds@ == seq![background]
}

impl GameData {
    /// The default scene: the built-in grid, the built-in palette texture,
    /// a wall texture and a sky texture delivered by the asset loader, and
    /// the default view and player settings.
    pub fn new(wall_texture: FileTexture, background: FileTexture) -> (d: GameData)
        requires
            wall_texture.wf(),
            background.wf(),
        ensures
            d.wf(),
            spec_is_default_scene(d, wall_texture, background),
    {
        let rows: Vec<Vec<u8>> = vec![
            vec![2u8, 2u8, 1u8, 1u8, 1u8, 2u8, 2u8, 2u8, 2u8, 2u8],
            vec![2u8, 0u8, 0u8, 0u8, 0u8, 0u8, 0u8, 0u8, 0u8, 2u8],
            vec![2u8, 0u8, 0u8, 0u8, 0u8, 0u8, 0u8, 0u8, 0u8, 2u8],
            vec![2u8, 0u8, 0u8, 1u8, 1u8, 0u8, 2u8, 0u8, 0u8, 2u8],
            vec![2u8, 0u8, 0u8, 2u8, 0u8, 0u8, 2u8, 0u8, 0u8, 2u8],
            vec![2u8, 0u8, 0u8, 2u8, 0u8, 0u8, 2u8, 0u8, 0u8, 2u8],
            vec![2u8, 0u8, 0u8, 2u8, 0u8, 2u8, 2u8, 0u8, 0u8, 2u8],
            vec![2u8, 0u8, 0u8, 0u8, 0u8, 0u8, 0u8, 0u8, 0u8, 2u8],
            vec![2u8, 0u8, 0u8, 0u8, 0u8, 0u8, 0u8, 0u8, 0u8, 2u8],
            vec![2u8, 2u8, 2u8, 2u8, 2u8, 2u8, 2u8, 2u8, 2u8, 2u8],
        ];
        let ghost gv = rows@.map_values(|row: Vec<u8>| row@);
        proof {
            assert(gv =~~= default_grid());
            assert(gv.len() == 10);
            assert(forall|r: int| 0 <= r < 10 ==> (#[trigger] gv[r]).len() == 10);
            assert(forall|c: int| 0 <= c < 10 ==> #[trigger] gv[0][c] != 0 && gv[9][c] != 0);
            assert(forall|r: int| 0 <= r < 10 ==> #[trigger] gv[r][0] != 0 && gv[r][9] != 0);
        }
        let map = Grid::from_rows(rows).unwrap();
        let bitmap: Vec<Vec<u8>> = vec![
            vec![1u8, 1u8, 1u8, 1u8, 1u8, 1u8, 1u8, 1u8],
            vec![0u8, 0u8, 0u8, 1u8, 0u8, 0u8, 0u8, 1u8],
            vec![1u8, 1u8, 1u8, 1u8, 1u8, 1u8, 1u8, 1u8],
            vec![0u8, 1u8, 0u8, 0u8, 0u8, 1u8, 0u8, 0u8],
            vec![1u8, 1u8, 1u8, 1u8, 1u8, 1u8, 1u8, 1u8],
            vec![0u8, 0u8, 0u8, 1u8, 0u8, 0u8, 0u8, 1u8],
            vec![1u8, 1u8, 1u8, 1u8, 1u8, 1u8, 1u8, 1u8],
            vec![0u8, 1u8, 0u8, 0u8, 0u8, 1u8, 0u8, 0u8],
        ];
        let colors: Vec<RgbColor> = vec![RgbColor::rgb(0, 0, 0), RgbColor::rgb(255, 255, 255)];
        let palette = InMemoryTexture { width: 8, height: 8, bitmap, colors };
        proof {
            assert(forall|r: int|
                0 <= r < 8 ==> (#[trigger] palette.bitmap@[r])@.len() == 8);
            assert(forall|r: int, c: int|
                0 <= r < 8 && 0 <= c < 8 ==> (#[trigger] palette.bitmap@[r]@[c]) < 2);
            assert(palette.bitmap@.map_values(|row: Vec<u8>| row@) =~~= default_palette_bitmap());
            assert(palette.colors@ =~= default_palette_colors());
        }
        let textures: Vec<Texture> = vec![Texture::InMemory(palette), Texture::File(wall_texture)];
        let backgrounds: Vec<FileTexture> = vec![background];
        let d = GameData {
            screen_width: 640,
            screen_height: 480,
            player_fov: 60 * FP_ONE,
            player_x: 2 * FP_ONE,
            player_y: 2 * FP_ONE,
            player_angle: 90 * FP_ONE,
            raycasting_precision: 64,
            map,
            player_speed_movement: 3277,
            player_speed_rotation: 3 * FP_ONE,
            player_radius: 10 * FP_ONE,
            scale: 4,
            textures,
            backgrounds,
        };
        proof {
            assert(Grid::codes_bounded(d.map@, 2)) by {
                assert(forall|r: int, c: int|
                    0 <= r < 10 && 0 <= c < 10 ==> (#[trigger] default_grid()[r][c]) <= 2);
            }
            assert(grid_tile(d.map@, 2, 2) == 0);
            assert(forall|i: int|
                0 <= i < d.textures@.len() ==> (#[trigger] d.textures@[i]).wf()) by {
                assert(d.textures@[0].wf());
                assert(d.textures@[1].wf());
            }
            assert(forall|i: int|
                0 <= i < d.backgrounds@.len() ==> (#[trigger] d.backgrounds@[i]).wf()) by {
                assert(d.backgrounds@[0].wf());
            }
            assert(d.backgrounds@ =~= seq![background]);
        }
        d
    }
}

/// A nonnegative fixed-point coordinate at or past `w` grid units floors
/// to a row or column outside a grid of `w` cells.
proof fn lemma_floor_out_of_range(v: int, w: int)
    requires
        0 <= v,
        0 < w,
    ensures
        v >= w * FP_ONE ==> v / (FP_ONE as int) >= w,
{
    if v >= w * FP_ONE {
        assert(v / (FP_ONE as int) >= w) by (nonlinear_arith)
            requires v >= w * 65536;
    }
}

} // verus!
