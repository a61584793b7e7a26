//! Ray casting: the per-column visibility search.
//!
//! For each screen column a ray leaves the player at that column's angle
//! and marches in fixed sub-tile steps until a sample lands in a solid
//! tile. The raw distance to the hit is then projected onto the view plane
//! (fisheye correction), turned into an on-screen wall half-height, and
//! the exact hit coordinate is mapped to a texture column.

use vstd::prelude::*;

verus! {

use crate::data::GameData;
use crate::fixed::{
    FP_ONE,
    DEG_FULL,
    div_floor,
    fx_floor,
    isqrt,
    lemma_floor_adjacent,
    lemma_floor_cell,
};
use crate::grid::{Grid, grid_tile, grid_wf, lemma_open_tile_is_interior};
use crate::trig::{
    cos_fx,
    sin_fx,
    spec_cos,
    spec_sin,
    lemma_cos_bounds,
    lemma_cos_nonneg_quadrant,
    lemma_cos_zero,
};
use vstd::arithmetic::div_mod::{
    lemma_div_is_ordered,
    lemma_div_multiples_vanish,
    lemma_div_pos_is_pos,
    lemma_fundamental_div_mod,
    lemma_mod_bound,
};

/// Position of a ray along one axis after `k` fixed-length steps.
pub open spec fn ray_pos(start: int, step: int, k: int) -> int {
    start + k * step
}

/// Whether the ray's `k`-th sample lands in a solid tile.
pub open spec fn sample_hits_wall(
    g: Seq<Seq<u8>>,
    px: int,
    py: int,
    sx: int,
    sy: int,
    k: int,
) -> bool {
    grid_tile(g, ray_pos(py, sy, k) / (FP_ONE as int), ray_pos(px, sx, k) / (FP_ONE as int)) != 0
}

/// The step at which the ray first samples a solid tile, within a budget
/// of `n` steps; zero when no sample up to step `n` strikes a wall.
pub open spec fn spec_first_hit_step(
    g: Seq<Seq<u8>>,
    px: int,
    py: int,
    sx: int,
    sy: int,
    n: int,
) -> int
    decreases n,
{
    if n < 1 {
        0
    } else if spec_first_hit_step(g, px, py, sx, sy, n - 1) != 0 {
        spec_first_hit_step(g, px, py, sx, sy, n - 1)
    } else if sample_hits_wall(g, px, py, sx, sy, n) {
        n
    } else {
        0
    }
}

/// What the first-hit step means: zero exactly when no sample within the
/// budget strikes a wall, and otherwise the least striking step.
pub proof fn lemma_first_hit_step_meaning(
    g: Seq<Seq<u8>>,
    px: int,
    py: int,
    sx: int,
    sy: int,
    n: int,
)
    ensures
        spec_first_hit_step(g, px, py, sx, sy, n) == 0 ==> forall|j: int|
            1 <= j <= n ==> !sample_hits_wall(g, px, py, sx, sy, j),
        spec_first_hit_step(g, px, py, sx, sy, n) != 0 ==> ({
            let k = spec_first_hit_step(g, px, py, sx, sy, n);
            &&& 1 <= k <= n
            &&& sample_hits_wall(g, px, py, sx, sy, k)
            &&& forall|j: int| 1 <= j < k ==> !sample_hits_wall(g, px, py, sx, sy, j)
        }),
    decreases n,
{
    if n >= 1 {
        lemma_first_hit_step_meaning(g, px, py, sx, sy, n - 1);
    }
}

/// A first hit found by marching is the first-hit step.
pub proof fn lemma_first_hit_step_unique(
    g: Seq<Seq<u8>>,
    px: int,
    py: int,
    sx: int,
    sy: int,
    n: int,
    k: int,
)
    requires
        1 <= k <= n,
        sample_hits_wall(g, px, py, sx, sy, k),
        forall|j: int| 1 <= j < k ==> !sample_hits_wall(g, px, py, sx, sy, j),
    ensures
        spec_first_hit_step(g, px, py, sx, sy, n) == k,
{
    lemma_first_hit_step_meaning(g, px, py, sx, sy, n);
    let k2 = spec_first_hit_step(g, px, py, sx, sy, n);
    if k2 == 0 {
        assert(!sample_hits_wall(g, px, py, sx, sy, k));
    } else if k2 < k {
        assert(!sample_hits_wall(g, px, py, sx, sy, k2));
    } else if k2 > k {
        assert(!sample_hits_wall(g, px, py, sx, sy, k));
    }
}

/// The integer square root of a nonnegative value: the unique `r` with
/// `r * r <= n < (r + 1) * (r + 1)`.
pub open spec fn spec_isqrt(n: int) -> int {
    choose|r: int| 0 <= r && #[trigger] (r * r) <= n && n < (r + 1) * (r + 1)
}

/// Any witness of the square root characterization is the square root.
pub proof fn lemma_isqrt_unique(n: int, r: int)
    requires
        0 <= r,
        r * r <= n,
        n < (r + 1) * (r + 1),
    ensures
        spec_isqrt(n) == r,
{
    assert(exists|x: int| 0 <= x && #[trigger] (x * x) <= n && n < (x + 1) * (x + 1)) by {
        assert(0 <= r && r * r <= n && n < (r + 1) * (r + 1));
    }
    let s = spec_isqrt(n);
    assert(0 <= s && s * s <= n && n < (s + 1) * (s + 1));
    assert(s == r) by (nonlinear_arith)
        requires
            0 <= r,
            r * r <= n,
            n < (r + 1) * (r + 1),
            0 <= s,
            s * s <= n,
            n < (s + 1) * (s + 1),
    ;
}

/// The first solid sample of one ray march: its exact fixed-point
/// position, the tile code struck, and the number of steps taken.
pub struct RayHit {
    pub x: i64,
    pub y: i64,
    pub tile: u8,
    pub steps: u64,
}

/// Marches a ray from inside an open tile in fixed steps of at most one
/// grid unit per axis, until a sample lands in a solid tile. Returns the
/// first such sample; `None` if the step budget runs out first (as it
/// must when both steps are zero). Because every step is at most one tile
/// and the border is solid, the march can never leave the grid.
pub fn cast_ray(map: &Grid, px: i64, py: i64, sx: i64, sy: i64, max_steps: u64) -> (r: Option<
    RayHit,
>)
    requires
        map.wf(),
        0 <= px,
        0 <= py,
        grid_tile(map@, py as int / FP_ONE as int, px as int / FP_ONE as int) == 0,
        -FP_ONE <= sx <= FP_ONE,
        -FP_ONE <= sy <= FP_ONE,
    ensures
        match r {
            Some(hit) => {
                &&& 1 <= hit.steps <= max_steps
                &&& hit.x == ray_pos(px as int, sx as int, hit.steps as int)
                &&& hit.y == ray_pos(py as int, sy as int, hit.steps as int)
                &&& 0 <= hit.x < map@[0].len() * FP_ONE
                &&& 0 <= hit.y < map@.len() * FP_ONE
                &&& hit.tile == grid_tile(
                    map@,
                    hit.y as int / FP_ONE as int,
                    hit.x as int / FP_ONE as int,
                )
                &&& hit.tile != 0
                &&& forall|j: int|
                    1 <= j < hit.steps ==> !sample_hits_wall(
                        map@,
                        px as int,
                        py as int,
                        sx as int,
                        sy as int,
                        j,
                    )
                &&& hit.steps == spec_first_hit_step(
                    map@,
                    px as int,
                    py as int,
                    sx as int,
                    sy as int,
                    max_steps as int,
                )
            },
            None => {
                &&& forall|j: int|
                    1 <= j <= max_steps ==> !sample_hits_wall(
                        map@,
                        px as int,
                        py as int,
                        sx as int,
                        sy as int,
                        j,
                    )
                &&& spec_first_hit_step(
                    map@,
                    px as int,
                    py as int,
                    sx as int,
                    sy as int,
                    max_steps as int,
                ) == 0
            },
        },
{
    let ghost g = map@;
    if sx == 0 && sy == 0 {
        proof {
            assert forall|j: int| 1 <= j <= max_steps implies !sample_hits_wall(
                g,
                px as int,
                py as int,
                0,
                0,
                j,
            ) by {
                assert(j * 0 == 0) by (nonlinear_arith);
            }
            lemma_first_hit_step_meaning(g, px as int, py as int, 0, 0, max_steps as int);
        }
        return None;
    }
    let mut k: u64 = 0;
    let mut x = px;
    let mut y = py;
    loop
        invariant
            map.wf(),
            g == map@,
            -FP_ONE <= sx <= FP_ONE,
            -FP_ONE <= sy <= FP_ONE,
            k <= max_steps,
            x == ray_pos(px as int, sx as int, k as int),
            y == ray_pos(py as int, sy as int, k as int),
            0 <= x,
            0 <= y,
            grid_tile(g, y as int / FP_ONE as int, x as int / FP_ONE as int) == 0,
            forall|j: int|
                1 <= j <= k ==> !sample_hits_wall(g, px as int, py as int, sx as int, sy as int, j),
        decreases max_steps - k,
    {
        if k == max_steps {
            proof {
                lemma_first_hit_step_meaning(
                    g,
                    px as int,
                    py as int,
                    sx as int,
                    sy as int,
                    max_steps as int,
                );
            }
            return None;
        }
        let ghost row0 = y as int / FP_ONE as int;
        let ghost col0 = x as int / FP_ONE as int;
        proof {
            lemma_open_tile_is_interior(g, row0, col0);
            lemma_floor_cell(x as int);
            lemma_floor_cell(y as int);
            lemma_floor_adjacent(x as int, sx as int);
            lemma_floor_adjacent(y as int, sy as int);
            assert((col0 + 1) * FP_ONE <= (g[0].len() - 1) * FP_ONE) by (nonlinear_arith)
                requires col0 + 1 <= g[0].len() - 1;
            assert((row0 + 1) * FP_ONE <= (g.len() - 1) * FP_ONE) by (nonlinear_arith)
                requires row0 + 1 <= g.len() - 1;
            assert((g[0].len() - 1) * FP_ONE + FP_ONE == g[0].len() * FP_ONE) by (nonlinear_arith);
            assert((g.len() - 1) * FP_ONE + FP_ONE == g.len() * FP_ONE) by (nonlinear_arith);
            assert(g[0].len() * FP_ONE <= 1024 * 65536) by (nonlinear_arith)
                requires g[0].len() <= 1024;
            assert(g.len() * FP_ONE <= 1024 * 65536) by (nonlinear_arith)
                requires g.len() <= 1024;
            assert((k + 1) as int * sx as int == k as int * sx as int + sx as int)
                by (nonlinear_arith);
            assert((k + 1) as int * sy as int == k as int * sy as int + sy as int)
                by (nonlinear_arith);
        }
        k = k + 1;
        x = x + sx;
        y = y + sy;
        let row = fx_floor(y);
        let col = fx_floor(x);
        let t = map.tile(row, col);
        if t != 0 {
            proof {
                assert((col0 + 1) * FP_ONE <= g[0].len() * FP_ONE) by (nonlinear_arith)
                    requires col0 + 1 <= g[0].len();
                assert((row0 + 1) * FP_ONE <= g.len() * FP_ONE) by (nonlinear_arith)
                    requires row0 + 1 <= g.len();
                lemma_first_hit_step_unique(
                    g,
                    px as int,
                    py as int,
                    sx as int,
                    sy as int,
                    max_steps as int,
                    k as int,
                );
            }
            return Some(RayHit { x, y, tile: t, steps: k });
        }
    }
}

/// Euclidean distance between two fixed-point points, rounded down: the
/// result is pinned by the integer square root characterization.
pub fn fx_distance(ax: i64, ay: i64, bx: i64, by: i64) -> (r: i64)
    requires
        -0x400_0000 <= ax <= 0x400_0000,
        -0x400_0000 <= ay <= 0x400_0000,
        -0x400_0000 <= bx <= 0x400_0000,
        -0x400_0000 <= by <= 0x400_0000,
    ensures
        0 <= r < 0x1000_0000,
        r * r <= (ax - bx) * (ax - bx) + (ay - by) * (ay - by),
        (ax - bx) * (ax - bx) + (ay - by) * (ay - by) < (r + 1) * (r + 1),
        r == spec_isqrt((ax - bx) * (ax - bx) + (ay - by) * (ay - by)),
{
    let dx = ax - bx;
    let dy = ay - by;
    proof {
        assert(0 <= dx * dx <= 0x40_0000_0000_0000) by (nonlinear_arith)
            requires -0x800_0000 <= dx <= 0x800_0000;
        assert(0 <= dy * dy <= 0x40_0000_0000_0000) by (nonlinear_arith)
            requires -0x800_0000 <= dy <= 0x800_0000;
    }
    let sq = (dx * dx + dy * dy) as u64;
    let r = isqrt(sq);
    proof {
        assert(r < 0x1000_0000) by (nonlinear_arith)
            requires r * r <= 0x80_0000_0000_0000;
        lemma_isqrt_unique(sq as int, r as int);
    }
    r as i64
}

/// Fisheye correction: scales the raw ray distance by the cosine of the
/// angle between the ray and the view direction, giving the perpendicular
/// distance to the view plane. A ray straight along the view direction
/// keeps its raw distance, and no ray's corrected distance exceeds its
/// raw distance.
pub fn fisheye_correct(dist: i64, delta: i64) -> (r: i64)
    requires
        0 <= dist < 0x1000_0000,
        -DEG_FULL <= delta <= DEG_FULL,
    ensures
        r == dist as int * spec_cos(delta as int) / (FP_ONE as int),
        delta == 0 ==> r == dist,
        r <= dist,
{
    let c = cos_fx(delta);
    proof {
        assert(-0x1000_0000_0000 <= dist as int * c as int <= 0x1000_0000_0000)
            by (nonlinear_arith)
            requires
                0 <= dist <= 0x1000_0000,
                -65536 <= c <= 65536,
        ;
        assert(dist as int * c as int <= dist as int * (FP_ONE as int)) by (nonlinear_arith)
            requires 0 <= dist, c <= FP_ONE;
        lemma_div_is_ordered(
            dist as int * c as int,
            dist as int * (FP_ONE as int),
            FP_ONE as int,
        );
        lemma_div_multiples_vanish(dist as int, FP_ONE as int);
        assert(dist as int * (FP_ONE as int) == (FP_ONE as int) * dist as int)
            by (nonlinear_arith);
        if delta == 0 {
            lemma_cos_zero();
        }
    }
    div_floor(dist * c, FP_ONE)
}

/// On-screen half-height of a wall slice: half the projection height over
/// the corrected distance in grid units. A corrected distance that
/// truncated to zero (a wall at the eye) is treated as the smallest
/// positive distance, which fills the whole column.
pub fn wall_half_height(half_height: usize, corrected: i64) -> (h: i64)
    requires
        half_height <= 16384,
        0 <= corrected,
    ensures
        h == half_height as int * FP_ONE / (if corrected == 0 { 1int } else { corrected as int }),
        0 <= h <= half_height as int * FP_ONE,
{
    let c: i64 = if corrected < 1 {
        1
    } else {
        corrected
    };
    let num = (half_height as u64) * (FP_ONE as u64);
    let h = (num / (c as u64)) as i64;
    proof {
        lemma_div_pos_is_pos(num as int, c as int);
        lemma_div_is_ordered_by_denominator_one(num as int, c as int);
    }
    h
}

/// Dividing a nonnegative number by a positive divisor never exceeds the
/// number itself.
proof fn lemma_div_is_ordered_by_denominator_one(x: int, d: int)
    requires
        0 <= x,
        1 <= d,
    ensures
        x / d <= x,
{
    vstd::arithmetic::div_mod::lemma_div_is_ordered_by_denominator(x, 1, d);
    vstd::arithmetic::div_mod::lemma_div_by_self(1);
    assert(x / 1 == x) by {
        lemma_div_multiples_vanish(x, 1);
    }
}

/// The texture column for a wall hit: the fractional part of `x + y`
/// scaled to the texture width. Summing the two coordinates projects the
/// hit onto the struck face's texture space without tracking which axis
/// the face is aligned to.
pub open spec fn spec_texture_column(tw: int, hx: int, hy: int) -> int {
    tw * ((hx + hy) % (FP_ONE as int)) / (FP_ONE as int)
}

/// Maps a wall hit coordinate to a texture column, always within the
/// texture's width.
pub fn texture_column(tw: usize, hx: i64, hy: i64) -> (c: usize)
    requires
        1 <= tw <= 16384,
        0 <= hx <= 0x400_0000,
        0 <= hy <= 0x400_0000,
    ensures
        c == spec_texture_column(tw as int, hx as int, hy as int),
        c < tw,
{
    let s = hx + hy;
    let frac = ((s as u64) % (FP_ONE as u64)) as i64;
    proof {
        lemma_mod_bound(s as int, FP_ONE as int);
        assert(0 <= (tw as int) * (frac as int) && (tw as int) * (frac as int) < (tw as int) * (
        FP_ONE as int)) by (nonlinear_arith)
            requires
                1 <= tw,
                0 <= frac < FP_ONE,
        ;
        assert((tw as int) * (FP_ONE as int) <= 0x4000_0000) by (nonlinear_arith)
            requires tw <= 16384;
        assert((tw as int) * (frac as int) / (FP_ONE as int) < tw as int) by (nonlinear_arith)
            requires
                (tw as int) * (frac as int) < (tw as int) * (FP_ONE as int),
                0 <= (tw as int) * (frac as int),
        ;
        lemma_div_pos_is_pos((tw as int) * (frac as int), FP_ONE as int);
    }
    (((tw as u64) * (frac as u64)) / (FP_ONE as u64)) as usize
}

/// The angle of the ray cast for screen column `i`: the rays fan evenly
/// over the field of view starting at its left edge, one angular
/// increment per column.
pub open spec fn spec_column_angle(d: GameData, i: int) -> int {
    d.player_angle - d.spec_half_fov() + i * d.spec_increment_angle()
}

/// The fixed step of column `i`'s ray along the x axis: the direction
/// component divided by the marching precision.
pub open spec fn spec_column_step_x(d: GameData, i: int) -> int {
    spec_cos(spec_column_angle(d, i)) / (d.raycasting_precision as int)
}

/// The fixed step of column `i`'s ray along the y axis.
pub open spec fn spec_column_step_y(d: GameData, i: int) -> int {
    spec_sin(spec_column_angle(d, i)) / (d.raycasting_precision as int)
}

/// The step budget of one march: twice the precision times the sum of the
/// grid dimensions, enough for any ray that makes progress to cross the
/// whole grid.
pub open spec fn spec_column_budget(d: GameData) -> int {
    2 * d.raycasting_precision as int * (d.map@.len() + d.map@[0].len())
}

/// Everything the renderer needs to paint one column.
pub struct ColumnHit {
    /// The column ray's angle, in fixed-point degrees (not normalized).
    pub ray_angle: i64,
    /// The wall sample the ray stopped at.
    pub hit: RayHit,
    /// Straight-line distance from the player to the hit, fixed point.
    pub raw_distance: i64,
    /// Fisheye-corrected (view-plane) distance, fixed point.
    pub corrected_distance: i64,
    /// Half the painted wall slice's height, in pixels.
    pub wall_height: i64,
    /// Index of the struck wall's texture: the tile code less one.
    pub texture_index: usize,
    /// The texture column sampled for the whole slice.
    pub texture_x: usize,
}

/// The per-column result, as a specification: the first wall sample of
/// the column's ray within the step budget, and everything derived from
/// it — raw and corrected distances, slice half-height, texture index and
/// texture column. `None` exactly when no sample within the budget
/// strikes a wall.
pub open spec fn spec_cast_column(d: GameData, i: int) -> Option<ColumnHit> {
    let g = d.map@;
    let sx = spec_column_step_x(d, i);
    let sy = spec_column_step_y(d, i);
    let k = spec_first_hit_step(
        g,
        d.player_x as int,
        d.player_y as int,
        sx,
        sy,
        spec_column_budget(d),
    );
    if k == 0 {
        None
    } else {
        let hx = ray_pos(d.player_x as int, sx, k);
        let hy = ray_pos(d.player_y as int, sy, k);
        let tile = grid_tile(g, hy / (FP_ONE as int), hx / (FP_ONE as int));
        let raw = spec_isqrt(
            (d.player_x - hx) * (d.player_x - hx) + (d.player_y - hy) * (d.player_y - hy),
        );
        let corrected = raw * spec_cos(spec_column_angle(d, i) - d.player_angle) / (
        FP_ONE as int);
        let wall_height = d.spec_projection_half_height() * FP_ONE / (
        if corrected == 0 {
            1int
        } else {
            corrected
        });
        let tex_x = spec_texture_column(d.textures@[tile - 1].spec_width(), hx, hy);
        Some(
            ColumnHit {
                ray_angle: spec_column_angle(d, i) as i64,
                hit: RayHit { x: hx as i64, y: hy as i64, tile, steps: k as u64 },
                raw_distance: raw as i64,
                corrected_distance: corrected as i64,
                wall_height: wall_height as i64,
                texture_index: (tile - 1) as usize,
                texture_x: tex_x as usize,
            },
        )
    }
}

/// A quotient of a bounded value by a positive divisor stays bounded.
proof fn lemma_div_magnitude(a: int, d: int)
    requires
        -FP_ONE <= a <= FP_ONE,
        1 <= d,
    ensures
        -FP_ONE <= a / d <= FP_ONE,
{
    lemma_fundamental_div_mod(a, d);
    lemma_mod_bound(a, d);
    assert(-FP_ONE <= a / d <= FP_ONE) by (nonlinear_arith)
        requires
            a == d * (a / d) + a % d,
            0 <= a % d < d,
            -FP_ONE <= a <= FP_ONE,
            1 <= d,
    ;
}

/// Casts the ray for screen column `i` and derives everything the
/// renderer needs for that column: the wall hit, the raw and the
/// fisheye-corrected distances, the wall slice half-height, the texture
/// index and the texture column. Returns `None` exactly when the march's
/// step budget finds no wall, which only a degenerate precision allows in
/// an enclosed grid.
pub fn cast_column(d: &GameData, i: usize) -> (r: Option<ColumnHit>)
    requires
        d.wf(),
        i < d.spec_projection_width(),
    ensures
        match r {
            Some(ch) => {
                &&& ch.ray_angle == spec_column_angle(*d, i as int)
                &&& 1 <= ch.hit.steps <= spec_column_budget(*d)
                &&& ch.hit.x == ray_pos(
                    d.player_x as int,
                    spec_column_step_x(*d, i as int),
                    ch.hit.steps as int,
                )
                &&& ch.hit.y == ray_pos(
                    d.player_y as int,
                    spec_column_step_y(*d, i as int),
                    ch.hit.steps as int,
                )
                &&& ch.hit.tile == grid_tile(
                    d.map@,
                    ch.hit.y as int / FP_ONE as int,
                    ch.hit.x as int / FP_ONE as int,
                )
                &&& 1 <= ch.hit.tile <= d.textures@.len()
                &&& forall|j: int|
                    1 <= j < ch.hit.steps ==> !sample_hits_wall(
                        d.map@,
                        d.player_x as int,
                        d.player_y as int,
                        spec_column_step_x(*d, i as int),
                        spec_column_step_y(*d, i as int),
                        j,
                    )
                &&& 0 <= ch.raw_distance
                &&& ch.raw_distance * ch.raw_distance <= (d.player_x - ch.hit.x) * (d.player_x
                    - ch.hit.x) + (d.player_y - ch.hit.y) * (d.player_y - ch.hit.y)
                &&& (d.player_x - ch.hit.x) * (d.player_x - ch.hit.x) + (d.player_y - ch.hit.y)
                    * (d.player_y - ch.hit.y) < (ch.raw_distance + 1) * (ch.raw_distance + 1)
                &&& ch.corrected_distance == ch.raw_distance * spec_cos(
                    spec_column_angle(*d, i as int) - d.player_angle,
                ) / (FP_ONE as int)
                &&& 0 <= ch.corrected_distance <= ch.raw_distance
                &&& spec_column_angle(*d, i as int) == d.player_angle
                    ==> ch.corrected_distance == ch.raw_distance
                &&& ch.wall_height == d.spec_projection_half_height() * FP_ONE / (
                if ch.corrected_distance == 0 {
                    1int
                } else {
                    ch.corrected_distance as int
                })
                &&& ch.texture_index == ch.hit.tile - 1
                &&& ch.texture_x == spec_texture_column(
                    d.textures@[ch.texture_index as int].spec_width(),
                    ch.hit.x as int,
                    ch.hit.y as int,
                )
                &&& ch.texture_x < d.textures@[ch.texture_index as int].spec_width()
            },
            None => forall|j: int|
                1 <= j <= spec_column_budget(*d) ==> !sample_hits_wall(
                    d.map@,
                    d.player_x as int,
                    d.player_y as int,
                    spec_column_step_x(*d, i as int),
                    spec_column_step_y(*d, i as int),
                    j,
                ),
        },
        r == spec_cast_column(*d, i as int),
{
    let half_fov = d.player_half_fov();
    let inc = d.increment_angle();
    let pw = d.projection_width();
    proof {
        lemma_fundamental_div_mod(d.player_fov as int, pw as int);
        lemma_mod_bound(d.player_fov as int, pw as int);
        assert(0 <= (i as int) * (inc as int) <= (pw as int) * (inc as int))
            by (nonlinear_arith)
            requires
                0 <= i <= pw,
                0 <= inc,
        ;
        assert((i as int) * (inc as int) <= 0x80_0000_0000) by (nonlinear_arith)
            requires
                0 <= i <= 16384,
                0 <= inc <= 0xC0_0000,
        ;
        lemma_fundamental_div_mod(d.player_fov as int, 2);
        lemma_mod_bound(d.player_fov as int, 2);
    }
    let ray_angle = d.player_angle - half_fov + (i as i64) * inc;
    let delta = ray_angle - d.player_angle;
    proof {
        lemma_cos_nonneg_quadrant(delta as int);
    }
    let cosv = cos_fx(ray_angle);
    let sinv = sin_fx(ray_angle);
    let prec = d.raycasting_precision;
    let sx = div_floor(cosv, prec);
    let sy = div_floor(sinv, prec);
    proof {
        lemma_div_magnitude(cosv as int, prec as int);
        lemma_div_magnitude(sinv as int, prec as int);
    }
    let h = d.map.height();
    let w = d.map.width();
    let p64 = prec as u64;
    let dims = (h + w) as u64;
    proof {
        assert(2 * (p64 as int) * (dims as int) <= 0x4000_0000) by (nonlinear_arith)
            requires
                1 <= p64 <= 65536,
                dims <= 2048,
        ;
    }
    let budget = 2 * p64 * dims;
    let hit_opt = cast_ray(&d.map, d.player_x, d.player_y, sx, sy, budget);
    match hit_opt {
        None => None,
        Some(hit) => {
            let ghost g = d.map@;
            let ghost prow = d.player_y as int / FP_ONE as int;
            let ghost pcol = d.player_x as int / FP_ONE as int;
            proof {
                lemma_open_tile_is_interior(g, prow, pcol);
                lemma_floor_cell(d.player_x as int);
                lemma_floor_cell(d.player_y as int);
                assert((pcol + 1) * FP_ONE <= 1024 * 65536) by (nonlinear_arith)
                    requires pcol + 1 <= 1024;
                assert((prow + 1) * FP_ONE <= 1024 * 65536) by (nonlinear_arith)
                    requires prow + 1 <= 1024;
                assert(g[0].len() * FP_ONE <= 0x400_0000) by (nonlinear_arith)
                    requires g[0].len() <= 1024;
                assert(g.len() * FP_ONE <= 0x400_0000) by (nonlinear_arith)
                    requires g.len() <= 1024;
            }
            let raw = fx_distance(d.player_x, d.player_y, hit.x, hit.y);
            let corrected = fisheye_correct(raw, delta);
            proof {
                assert(0 <= raw as int * spec_cos(delta as int)) by (nonlinear_arith)
                    requires
                        0 <= raw,
                        0 <= spec_cos(delta as int),
                ;
                lemma_div_pos_is_pos(raw as int * spec_cos(delta as int), FP_ONE as int);
            }
            let phh = d.projection_half_height();
            let wh = wall_half_height(phh, corrected);
            let tile = hit.tile;
            let ghost hrow = hit.y as int / FP_ONE as int;
            let ghost hcol = hit.x as int / FP_ONE as int;
            proof {
                crate::fixed::lemma_floor_in_grid(hit.x as int, g[0].len() as int);
                crate::fixed::lemma_floor_in_grid(hit.y as int, g.len() as int);
                assert(g[hrow].len() == g[0].len());
                assert(grid_tile(g, hrow, hcol) == g[hrow][hcol]);
                assert(g[hrow][hcol] == 0 || g[hrow][hcol] <= d.textures@.len());
                assert(((tile - 1) as int) < d.textures@.len());
                assert(d.textures@[(tile - 1) as int].wf());
            }
            let idx = (tile - 1) as usize;
            let t = &d.textures[idx];
            let tw = t.width();
            let tx = texture_column(tw, hit.x, hit.y);
            Some(
                ColumnHit {
                    ray_angle,
                    hit,
                    raw_distance: raw,
                    corrected_distance: corrected,
                    wall_height: wh,
                    texture_index: idx,
                    texture_x: tx,
                },
            )
        },
    }
}

/// Fisheye correction law: a ray exactly along the view direction keeps
/// its raw distance (the cosine of zero is exactly one), and no ray's
/// corrected distance exceeds its raw distance.
pub proof fn lemma_fisheye_correction(dist: int, delta: int)
    requires
        0 <= dist,
    ensures
        delta == 0 ==> dist * spec_cos(delta) / (FP_ONE as int) == dist,
        dist * spec_cos(delta) / (FP_ONE as int) <= dist,
{
    lemma_cos_bounds(delta);
    assert(dist * spec_cos(delta) <= dist * (FP_ONE as int)) by (nonlinear_arith)
        requires
            0 <= dist,
            spec_cos(delta) <= FP_ONE,
    ;
    lemma_div_is_ordered(dist * spec_cos(delta), dist * (FP_ONE as int), FP_ONE as int);
    lemma_div_multiples_vanish(dist, FP_ONE as int);
    assert(dist * (FP_ONE as int) == (FP_ONE as int) * dist) by (nonlinear_arith);
    if delta == 0 {
        lemma_cos_zero();
    }
}

/// When a ray travels along one axis only, its integer-square-root
/// distance is exactly the displacement along that axis.
pub proof fn lemma_exact_axis_distance(r: int, dy: int)
    requires
        0 <= dy,
        0 <= r,
        r * r <= dy * dy,
        dy * dy < (r + 1) * (r + 1),
    ensures
        r == dy,
{
    assert(r == dy) by (nonlinear_arith)
        requires
            0 <= dy,
            0 <= r,
            r * r <= dy * dy,
            dy * dy < (r + 1) * (r + 1),
    ;
}

/// While the march has not yet struck a wall, a straight downward ray in
/// an open corridor stays strictly above the corridor's closing wall row.
proof fn lemma_march_below_wall(
    g: Seq<Seq<u8>>,
    px: int,
    py: int,
    sy: int,
    wall_row: int,
    k: int,
    j: int,
)
    requires
        grid_wf(g),
        0 < sy <= FP_ONE,
        0 <= py,
        py / (FP_ONE as int) < wall_row,
        forall|r: int|
            py / (FP_ONE as int) <= r < wall_row ==> #[trigger] grid_tile(
                g,
                r,
                px / (FP_ONE as int),
            ) == 0,
        grid_tile(g, wall_row, px / (FP_ONE as int)) != 0,
        forall|j2: int| 1 <= j2 < k ==> !sample_hits_wall(g, px, py, 0, sy, j2),
        0 <= j < k,
    ensures
        (py + j * sy) / (FP_ONE as int) < wall_row,
    decreases j,
{
    let c = px / (FP_ONE as int);
    if j == 0 {
        assert(py + 0 * sy == py) by (nonlinear_arith);
    } else {
        lemma_march_below_wall(g, px, py, sy, wall_row, k, j - 1);
        let prev = py + (j - 1) * sy;
        let cur = py + j * sy;
        assert(py + j * sy == py + (j - 1) * sy + sy) by (nonlinear_arith);
        assert(0 <= (j - 1) * sy) by (nonlinear_arith)
            requires
                0 <= j - 1,
                0 < sy,
        ;
        lemma_floor_adjacent(prev, sy);
        vstd::arithmetic::div_mod::lemma_div_is_ordered(py, prev, FP_ONE as int);
        if cur / (FP_ONE as int) >= wall_row {
            // the sample would sit exactly on the wall row and strike it
            assert(cur / (FP_ONE as int) == wall_row);
            assert(ray_pos(px, 0, j) == px) by (nonlinear_arith);
            assert(!sample_hits_wall(g, px, py, 0, sy, j));
            assert(grid_tile(g, wall_row, c) == 0);
            assert(false);
        }
    }
}

/// Fixed-step marching's positional error: a straight downward ray's
/// first hit lands at or past the wall row's near edge, but overshoots it
/// by less than one step. The step is at most `1 / raycasting_precision`
/// of a grid unit, so that is the march's error bound.
pub proof fn lemma_march_overshoot(
    g: Seq<Seq<u8>>,
    px: int,
    py: int,
    sy: int,
    wall_row: int,
    k: int,
)
    requires
        grid_wf(g),
        0 < sy <= FP_ONE,
        0 <= py,
        py / (FP_ONE as int) < wall_row,
        forall|r: int|
            py / (FP_ONE as int) <= r < wall_row ==> #[trigger] grid_tile(
                g,
                r,
                px / (FP_ONE as int),
            ) == 0,
        grid_tile(g, wall_row, px / (FP_ONE as int)) != 0,
        1 <= k,
        sample_hits_wall(g, px, py, 0, sy, k),
        forall|j: int| 1 <= j < k ==> !sample_hits_wall(g, px, py, 0, sy, j),
    ensures
        wall_row * FP_ONE <= py + k * sy < wall_row * FP_ONE + sy,
{
    let f = FP_ONE as int;
    let c = px / f;
    assert(ray_pos(px, 0, k) == px) by (nonlinear_arith);
    lemma_march_below_wall(g, px, py, sy, wall_row, k, k - 1);
    let h = py + k * sy;
    assert(py + k * sy == py + (k - 1) * sy + sy) by (nonlinear_arith);
    assert(0 <= (k - 1) * sy) by (nonlinear_arith)
        requires
            0 <= k - 1,
            0 < sy,
    ;
    lemma_floor_adjacent(py + (k - 1) * sy, sy);
    lemma_div_is_ordered(py, py + (k - 1) * sy, f);
    // the hit row cannot lie above the wall row: that row would be open
    assert(h / f >= wall_row) by {
        if h / f < wall_row {
            assert(grid_tile(g, h / f, c) == 0);
        }
    }
    lemma_floor_cell(h);
    assert(wall_row * (FP_ONE as int) <= h) by (nonlinear_arith)
        requires
            h / (FP_ONE as int) >= wall_row,
            (h / (FP_ONE as int)) * FP_ONE <= h,
    ;
    // the previous sample was still short of the wall row's near edge
    lemma_floor_cell(py + (k - 1) * sy);
    assert(py + (k - 1) * sy < wall_row * (FP_ONE as int)) by (nonlinear_arith)
        requires
            (py + (k - 1) * sy) / (FP_ONE as int) < wall_row,
            py + (k - 1) * sy < ((py + (k - 1) * sy) / (FP_ONE as int) + 1) * FP_ONE,
    ;
}

/// Hit-distance monotonicity for a ray fired straight at a wall: along a
/// downward ray in an open corridor of one column, closed below by a wall
/// row, a player standing closer to the wall gets a hit distance no
/// larger than a player standing farther away; moving closer by at least
/// one marching step shrinks it strictly, and the travel distances `k *
/// sy` differ from the player displacement by less than one step either
/// way. The two step counts are each characterized as the first sample
/// that strikes a wall, exactly as the march returns them.
pub proof fn lemma_hit_distance_monotone(
    g: Seq<Seq<u8>>,
    px: int,
    py1: int,
    py2: int,
    sy: int,
    wall_row: int,
    k1: int,
    k2: int,
)
    requires
        grid_wf(g),
        0 < sy <= FP_ONE,
        0 <= py1 <= py2,
        py2 / (FP_ONE as int) < wall_row,
        forall|r: int|
            py1 / (FP_ONE as int) <= r < wall_row ==> #[trigger] grid_tile(
                g,
                r,
                px / (FP_ONE as int),
            ) == 0,
        grid_tile(g, wall_row, px / (FP_ONE as int)) != 0,
        1 <= k1,
        sample_hits_wall(g, px, py1, 0, sy, k1),
        forall|j: int| 1 <= j < k1 ==> !sample_hits_wall(g, px, py1, 0, sy, j),
        1 <= k2,
        sample_hits_wall(g, px, py2, 0, sy, k2),
        forall|j: int| 1 <= j < k2 ==> !sample_hits_wall(g, px, py2, 0, sy, j),
    ensures
        k2 <= k1,
        k2 * sy <= k1 * sy,
        py2 - py1 >= sy ==> k2 * sy < k1 * sy,
        k1 * sy - k2 * sy < (py2 - py1) + sy,
        (py2 - py1) - sy < k1 * sy - k2 * sy,
{
    let f = FP_ONE as int;
    lemma_div_is_ordered(py1, py2, f);
    lemma_march_overshoot(g, px, py1, sy, wall_row, k1);
    lemma_march_overshoot(g, px, py2, sy, wall_row, k2);
    // both hits land within one step past the same wall edge, so the
    // travel distances differ from the displacement by less than one step
    let d1 = py1 + k1 * sy - wall_row * f;
    let d2 = py2 + k2 * sy - wall_row * f;
    assert(0 <= d1 < sy);
    assert(0 <= d2 < sy);
    assert(k1 * sy - k2 * sy == (py2 - py1) + d1 - d2);
    // a travel difference above minus one step cannot be a negative
    // multiple of the step
    if k2 > k1 {
        assert(k1 * sy - k2 * sy == (k1 - k2) * sy) by (nonlinear_arith);
        assert((k1 - k2) * sy <= -sy) by (nonlinear_arith)
            requires
                k1 - k2 <= -1,
                0 < sy,
        ;
        assert(false);
    }
    assert(k2 * sy <= k1 * sy) by (nonlinear_arith)
        requires
            k2 <= k1,
            0 < sy,
    ;
}


} // verus!
