//! Player movement and collision.
//!
//! One held key moves or turns the player. A move is axis-separated: each
//! axis probes the grid a little ahead of its own candidate position (the
//! displacement scaled by the collision look-ahead factor) and is applied
//! only if its probe tile is open, so the player slides along walls
//! instead of stopping dead when moving diagonally into one.

use vstd::prelude::*;

verus! {

use crate::data::GameData;
use crate::fixed::{
    FP_ONE,
    DEG_FULL,
    div_floor,
    euclid_mod,
    fx_floor,
    lemma_floor_adjacent,
    lemma_floor_between,
    lemma_floor_cell,
};
use crate::grid::{grid_tile, lemma_open_tile_is_interior};
use crate::trig::{cos_fx, sin_fx, spec_cos, spec_sin};
use vstd::arithmetic::div_mod::{lemma_div_is_ordered, lemma_div_multiples_vanish};

/// Key code that moves the player forward.
pub const KEY_UP: u32 = 38;

/// Key code that moves the player backward.
pub const KEY_DOWN: u32 = 40;

/// Key code that turns the player counterclockwise.
pub const KEY_LEFT: u32 = 37;

/// Key code that turns the player clockwise.
pub const KEY_RIGHT: u32 = 39;

/// One forward (`dir == 1`) or backward (`dir == -1`) move, as the
/// controller applies it: each axis moves only if the tile probed ahead of
/// that axis's candidate position is open. The y probe uses the current
/// column; the x probe uses the row the y move just produced.
pub open spec fn spec_move(d: GameData, dir: int) -> GameData {
    let pcos = spec_cos(d.player_angle as int) * d.player_speed_movement / (FP_ONE as int);
    let psin = spec_sin(d.player_angle as int) * d.player_speed_movement / (FP_ONE as int);
    let look_x = pcos * d.player_radius / (FP_ONE as int);
    let look_y = psin * d.player_radius / (FP_ONE as int);
    let new_x = d.player_x + dir * pcos;
    let new_y = d.player_y + dir * psin;
    let probe_row = (new_y + dir * look_y) / (FP_ONE as int);
    let probe_col = (new_x + dir * look_x) / (FP_ONE as int);
    let col = d.player_x as int / (FP_ONE as int);
    let y2: int = if grid_tile(d.map@, probe_row, col) == 0 {
        new_y
    } else {
        d.player_y as int
    };
    let x2: int = if grid_tile(d.map@, y2 / (FP_ONE as int), probe_col) == 0 {
        new_x
    } else {
        d.player_x as int
    };
    GameData { player_x: x2 as i64, player_y: y2 as i64, ..d }
}

/// One turn by the rotation speed, clockwise for `dir == 1`, wrapped into
/// [0, 360) degrees with a Euclidean remainder.
pub open spec fn spec_turn(d: GameData, dir: int) -> GameData {
    GameData {
        player_angle: ((d.player_angle + dir * d.player_speed_rotation) % (DEG_FULL as int))
            as i64,
        ..d
    }
}

/// What one held key does to the game state: forward or backward moves,
/// left or right turns; every other key code changes nothing.
pub open spec fn spec_apply_key(d: GameData, key: u32) -> GameData {
    if key == KEY_UP {
        spec_move(d, 1)
    } else if key == KEY_DOWN {
        spec_move(d, -1)
    } else if key == KEY_LEFT {
        spec_turn(d, -1)
    } else if key == KEY_RIGHT {
        spec_turn(d, 1)
    } else {
        d
    }
}

/// Scaling a fixed-point factor in [-FP_ONE, FP_ONE] by a nonnegative
/// amount keeps the result within that amount.
proof fn lemma_scale_bounded(t: int, s: int)
    requires
        -FP_ONE <= t <= FP_ONE,
        0 <= s,
    ensures
        -s <= t * s / (FP_ONE as int) <= s,
        t >= 0 ==> 0 <= t * s / (FP_ONE as int),
        t <= 0 ==> t * s / (FP_ONE as int) <= 0,
{
    assert(-(FP_ONE as int) * s <= t * s <= (FP_ONE as int) * s) by (nonlinear_arith)
        requires -FP_ONE <= t <= FP_ONE, 0 <= s;
    lemma_div_is_ordered(-(FP_ONE as int) * s, t * s, FP_ONE as int);
    lemma_div_is_ordered(t * s, (FP_ONE as int) * s, FP_ONE as int);
    lemma_div_multiples_vanish(s, FP_ONE as int);
    lemma_div_multiples_vanish(-s, FP_ONE as int);
    assert((FP_ONE as int) * -s == -(FP_ONE as int) * s) by (nonlinear_arith);
    if t >= 0 {
        assert(0 <= t * s) by (nonlinear_arith)
            requires 0 <= t, 0 <= s;
        vstd::arithmetic::div_mod::lemma_div_pos_is_pos(t * s, FP_ONE as int);
    }
    if t <= 0 {
        assert(t * s <= 0) by (nonlinear_arith)
            requires t <= 0, 0 <= s;
        lemma_div_is_ordered(t * s, 0, FP_ONE as int);
    }
}

/// A displacement bounded by an amount keeps its scaled look-ahead within
/// `amount * radius / FP_ONE + 1`, on either side, with a matching sign.
proof fn lemma_look_bounded(p: int, s: int, radius: int)
    requires
        -s <= p <= s,
        0 <= s,
        0 <= radius,
    ensures
        -(s * radius / (FP_ONE as int)) - 1 <= p * radius / (FP_ONE as int) <= s * radius / (
        FP_ONE as int),
        p >= 0 ==> 0 <= p * radius / (FP_ONE as int),
        p <= 0 ==> p * radius / (FP_ONE as int) <= 0,
{
    assert(-(s * radius) <= p * radius <= s * radius) by (nonlinear_arith)
        requires -s <= p <= s, 0 <= radius;
    lemma_div_is_ordered(-(s * radius), p * radius, FP_ONE as int);
    lemma_div_is_ordered(p * radius, s * radius, FP_ONE as int);
    // Euclidean division: -(a / d) - 1 <= (-a) / d for a, d >= 0.
    assert(0 <= s * radius) by (nonlinear_arith)
        requires 0 <= s, 0 <= radius;
    let a = s * radius;
    vstd::arithmetic::div_mod::lemma_fundamental_div_mod(a, FP_ONE as int);
    vstd::arithmetic::div_mod::lemma_fundamental_div_mod(-a, FP_ONE as int);
    vstd::arithmetic::div_mod::lemma_mod_bound(a, FP_ONE as int);
    vstd::arithmetic::div_mod::lemma_mod_bound(-a, FP_ONE as int);
    assert((-a) / (FP_ONE as int) >= -(a / (FP_ONE as int)) - 1) by (nonlinear_arith)
        requires
            a == (FP_ONE as int) * (a / (FP_ONE as int)) + a % (FP_ONE as int),
            -a == (FP_ONE as int) * ((-a) / (FP_ONE as int)) + (-a) % (FP_ONE as int),
            0 <= a % (FP_ONE as int) < FP_ONE,
            0 <= (-a) % (FP_ONE as int) < FP_ONE,
    ;
    if p >= 0 {
        assert(0 <= p * radius) by (nonlinear_arith)
            requires 0 <= p, 0 <= radius;
        vstd::arithmetic::div_mod::lemma_div_pos_is_pos(p * radius, FP_ONE as int);
    }
    if p <= 0 {
        assert(p * radius <= 0) by (nonlinear_arith)
            requires p <= 0, 0 <= radius;
        lemma_div_is_ordered(p * radius, 0, FP_ONE as int);
    }
}

/// Multiplying by a direction sign keeps or flips a value.
proof fn lemma_dir_mul(dir: int, v: int)
    requires
        dir == 1 || dir == -1,
    ensures
        dir == 1 ==> dir * v == v,
        dir == -1 ==> dir * v == -v,
{
    assert(dir == 1 ==> dir * v == v) by (nonlinear_arith);
    assert(dir == -1 ==> dir * v == -v) by (nonlinear_arith);
}

/// If the current cell and the probe cell are open, the destination cell
/// of the axis move (which lies between them, less than one tile away) is
/// open too.
proof fn lemma_destination_open(pos: int, step: int, look: int, cell_a: int, cell_b: int)
    requires
        step + look <= FP_ONE - 1,
        -(FP_ONE as int) + 1 <= step + look,
        (step >= 0 && look >= 0) || (step <= 0 && look <= 0),
        cell_a == pos / (FP_ONE as int),
        cell_b == (pos + step + look) / (FP_ONE as int),
    ensures
        (pos + step) / (FP_ONE as int) == cell_a || (pos + step) / (FP_ONE as int) == cell_b,
{
    lemma_floor_adjacent(pos, step + look);
    lemma_floor_between(pos, pos + step + look, pos + step);
}

/// Applies one forward or backward move in place: each axis probes the
/// grid ahead of its own candidate position and moves only if that probe
/// tile is open.
fn move_player(d: &mut GameData, dir: i64)
    requires
        old(d).wf(),
        dir == 1 || dir == -1,
    ensures
        *final(d) == spec_move(*old(d), dir as int),
        final(d).wf(),
{
    let ghost g = old(d).map@;
    let ghost speed = old(d).player_speed_movement as int;
    let ghost radius = old(d).player_radius as int;
    let ghost x0 = old(d).player_x as int;
    let ghost y0 = old(d).player_y as int;
    let ghost row0 = y0 / (FP_ONE as int);
    let ghost col0 = x0 / (FP_ONE as int);
    proof {
        lemma_open_tile_is_interior(g, row0, col0);
        lemma_floor_cell(x0);
        lemma_floor_cell(y0);
    }

    let cosv = cos_fx(d.player_angle);
    let sinv = sin_fx(d.player_angle);
    proof {
        assert(-0x1_0000_0000 <= cosv as int * d.player_speed_movement as int
            <= 0x1_0000_0000) by (nonlinear_arith)
            requires
                -65536 <= cosv <= 65536,
                0 <= d.player_speed_movement <= 65536,
        ;
        assert(-0x1_0000_0000 <= sinv as int * d.player_speed_movement as int
            <= 0x1_0000_0000) by (nonlinear_arith)
            requires
                -65536 <= sinv <= 65536,
                0 <= d.player_speed_movement <= 65536,
        ;
    }
    let pcos = div_floor(cosv * d.player_speed_movement, FP_ONE);
    let psin = div_floor(sinv * d.player_speed_movement, FP_ONE);
    proof {
        lemma_scale_bounded(cosv as int, speed);
        lemma_scale_bounded(sinv as int, speed);
        assert(-0x400_0000_0000 <= pcos as int * d.player_radius as int <= 0x400_0000_0000)
            by (nonlinear_arith)
            requires
                -65536 <= pcos <= 65536,
                0 <= d.player_radius <= 67108864,
        ;
        assert(-0x400_0000_0000 <= psin as int * d.player_radius as int <= 0x400_0000_0000)
            by (nonlinear_arith)
            requires
                -65536 <= psin <= 65536,
                0 <= d.player_radius <= 67108864,
        ;
    }
    let look_x = div_floor(pcos * d.player_radius, FP_ONE);
    let look_y = div_floor(psin * d.player_radius, FP_ONE);
    proof {
        lemma_look_bounded(pcos as int, speed, radius);
        lemma_look_bounded(psin as int, speed, radius);
        lemma_dir_mul(dir as int, pcos as int);
        lemma_dir_mul(dir as int, psin as int);
        lemma_dir_mul(dir as int, look_x as int);
        lemma_dir_mul(dir as int, look_y as int);
    }

    let col = fx_floor(d.player_x);
    let new_y = d.player_y + dir * psin;
    let probe_pos_y = new_y + dir * look_y;
    proof {
        lemma_floor_adjacent(y0, dir as int * psin as int + dir as int * look_y as int);
    }
    let probe_row = fx_floor(probe_pos_y);
    if d.map.tile(probe_row, col) == 0 {
        proof {
            if dir == 1 {
                lemma_destination_open(y0, psin as int, look_y as int, row0, probe_row as int);
            } else {
                lemma_destination_open(y0, -psin as int, -look_y as int, row0, probe_row as int);
            }
        }
        d.player_y = new_y;
    }

    let row = fx_floor(d.player_y);
    let new_x = d.player_x + dir * pcos;
    let probe_pos_x = new_x + dir * look_x;
    proof {
        lemma_floor_adjacent(x0, dir as int * pcos as int + dir as int * look_x as int);
    }
    let probe_col = fx_floor(probe_pos_x);
    if d.map.tile(row, probe_col) == 0 {
        proof {
            if dir == 1 {
                lemma_destination_open(x0, pcos as int, look_x as int, col0, probe_col as int);
            } else {
                lemma_destination_open(x0, -pcos as int, -look_x as int, col0, probe_col as int);
            }
        }
        d.player_x = new_x;
    }
}

/// Applies one turn in place, wrapping the angle into [0, 360) degrees
/// with a Euclidean remainder so that turning past zero wraps to the high
/// end rather than going negative.
fn turn_player(d: &mut GameData, dir: i64)
    requires
        old(d).wf(),
        dir == 1 || dir == -1,
    ensures
        *final(d) == spec_turn(*old(d), dir as int),
        final(d).wf(),
{
    proof {
        lemma_dir_mul(dir as int, d.player_speed_rotation as int);
    }
    let a = euclid_mod(d.player_angle + dir * d.player_speed_rotation, DEG_FULL);
    d.player_angle = a;
}

/// Applies what one held key asks: forward or backward moves the player
/// with axis-separated collision, left or right turns; any other key code
/// changes nothing.
pub fn apply_key(d: &mut GameData, key: u32)
    requires
        old(d).wf(),
    ensures
        *final(d) == spec_apply_key(*old(d), key),
        final(d).wf(),
{
    if key == KEY_UP {
        move_player(d, 1);
    } else if key == KEY_DOWN {
        move_player(d, -1);
    } else if key == KEY_LEFT {
        turn_player(d, -1);
    } else if key == KEY_RIGHT {
        turn_player(d, 1);
    }
}

/// Axis-separated collision law: a move never drags a blocked axis along.
/// If the tile probed ahead of the y candidate is solid, the y coordinate
/// stays exactly where it was; if the tile probed ahead of the x
/// candidate (on the row the y move settled on) is solid, the x
/// coordinate stays. Moving diagonally against a corner therefore changes
/// at most the one coordinate whose probe is open.
pub proof fn lemma_blocked_axis_stays(d: GameData, dir: int)
    requires
        d.wf(),
        dir == 1 || dir == -1,
    ensures
        ({
            let pcos = spec_cos(d.player_angle as int) * d.player_speed_movement / (
            FP_ONE as int);
            let psin = spec_sin(d.player_angle as int) * d.player_speed_movement / (
            FP_ONE as int);
            let look_x = pcos * d.player_radius / (FP_ONE as int);
            let look_y = psin * d.player_radius / (FP_ONE as int);
            let new_x = d.player_x + dir * pcos;
            let new_y = d.player_y + dir * psin;
            let probe_row = (new_y + dir * look_y) / (FP_ONE as int);
            let probe_col = (new_x + dir * look_x) / (FP_ONE as int);
            let col = d.player_x as int / (FP_ONE as int);
            let moved = spec_move(d, dir);
            &&& (grid_tile(d.map@, probe_row, col) != 0 ==> moved.player_y == d.player_y)
            &&& (grid_tile(
                d.map@,
                moved.player_y as int / (FP_ONE as int),
                probe_col,
            ) != 0 ==> moved.player_x == d.player_x)
            &&& (moved.player_y == d.player_y || moved.player_x == d.player_x || grid_tile(
                d.map@,
                probe_row,
                col,
            ) == 0 && grid_tile(d.map@, moved.player_y as int / (FP_ONE as int), probe_col)
                == 0)
        }),
{
}

} // verus!
