//! A software raycaster: renders a first-person view of a 2D tile grid by
//! marching one ray per screen column, with fisheye correction, textured
//! walls and a panning sky, plus the player movement and collision logic
//! that feeds the renderer its state.

pub mod color;
pub mod data;
pub mod fixed;
pub mod grid;
pub mod motion;
pub mod raycast;
pub mod texture;
pub mod trig;

use vstd::prelude::*;

verus! {

use crate::color::RgbColor;
use crate::data::{GameData, spec_is_default_scene};
use crate::fixed::{FP_ONE, FP_HALF, clamp0_floor, fx_floor_clamped};
use crate::texture::{
    FileTexture,
    Texture,
    background_sample,
    spec_background_sample,
    spec_texel,
};
use crate::motion::{apply_key, spec_apply_key};
use crate::raycast::{cast_column, spec_cast_column};
use vstd::arithmetic::div_mod::{lemma_fundamental_div_mod, lemma_mod_bound};

/// The whole game: its state, the held-key buffer the host refreshes
/// between ticks, and the RGBA frame buffer the renderer repaints each
/// tick.
pub struct Game {
    pub data: GameData,
    pub held_inputs: Vec<u32>,
    pub screen_buffer: Vec<u8>,
}

/// One RGBA channel of a color, by byte position within the pixel.
pub open spec fn spec_channel(c: RgbColor, k: int) -> u8 {
    if k == 0 {
        c.red
    } else if k == 1 {
        c.green
    } else if k == 2 {
        c.blue
    } else {
        c.alpha
    }
}

/// The frame buffer after painting one vertical span of a column with one
/// color: every byte of a pixel in column `x`, rows `y1` up to `y2`, takes
/// that color's channel; every other byte keeps its value. Writes outside
/// the buffer fall away by construction.
pub open spec fn spec_paint_span(
    buf: Seq<u8>,
    pw: int,
    x: int,
    y1: int,
    y2: int,
    c: RgbColor,
) -> Seq<u8> {
    Seq::new(
        buf.len(),
        |j: int|
            {
                let p = j / 4;
                if p % pw == x && y1 <= p / pw < y2 {
                    spec_channel(c, j % 4)
                } else {
                    buf[j]
                }
            },
    )
}

/// Painting an empty span changes nothing.
pub proof fn lemma_paint_empty_span(buf: Seq<u8>, pw: int, x: int, y1: int, y2: int, c: RgbColor)
    requires
        y2 <= y1,
    ensures
        spec_paint_span(buf, pw, x, y1, y2, c) =~= buf,
{
}

/// Painting a span of a column that lies beyond the right edge of the
/// frame changes nothing.
pub proof fn lemma_paint_offscreen_column(
    buf: Seq<u8>,
    pw: int,
    x: int,
    y1: int,
    y2: int,
    c: RgbColor,
)
    requires
        1 <= pw <= x,
    ensures
        spec_paint_span(buf, pw, x, y1, y2, c) =~= buf,
{
    assert forall|j: int| 0 <= j < buf.len() implies spec_paint_span(buf, pw, x, y1, y2, c)[j]
        == buf[j] by {
        lemma_mod_bound(j / 4, pw);
    }
}

impl Game {
    /// The state is coherent and the frame buffer has exactly four bytes
    /// per projection pixel.
    pub open spec fn wf(&self) -> bool {
        &&& self.data.wf()
        &&& self.held_inputs@.len() == 16
        &&& self.screen_buffer@.len() == 4 * (self.data.spec_projection_width()
            * self.data.spec_projection_height())
    }

    /// Wraps coherent game state with a cleared input buffer and a frame
    /// buffer of exactly four bytes per projection pixel.
    pub fn from_data(data: GameData) -> (g: Game)
        requires
            data.wf(),
        ensures
            g.wf(),
            g.data == data,
            g.held_inputs@ =~= Seq::new(16, |i: int| 0u32),
            g.screen_buffer@.len() == 4 * (data.spec_projection_width()
                * data.spec_projection_height()),
            forall|j: int|
                0 <= j < g.screen_buffer@.len() ==> #[trigger] g.screen_buffer@[j] == 125u8,
    {
        let pw = data.projection_width();
        let ph = data.projection_height();
        proof {
            assert(pw as int * ph as int <= 0x1000_0000) by (nonlinear_arith)
                requires
                    pw <= 16384,
                    ph <= 16384,
            ;
            assert(1 <= pw as int * ph as int) by (nonlinear_arith)
                requires
                    1 <= pw,
                    1 <= ph,
            ;
        }
        let buf_len = 4 * (ph * pw);
        let held_inputs: Vec<u32> = vec![0u32; 16];
        let screen_buffer: Vec<u8> = vec![125u8; buf_len];
        proof {
            assert(held_inputs@ =~= Seq::new(16, |i: int| 0u32));
            assert(pw as int * ph as int == ph as int * pw as int) by (nonlinear_arith);
        }
        Game { data, held_inputs, screen_buffer }
    }

    /// The default game: the default scene around textures delivered by
    /// the asset loader, with cleared inputs and a fresh frame buffer.
    pub fn new(wall_texture: FileTexture, background: FileTexture) -> (g: Game)
        requires
            wall_texture.wf(),
            background.wf(),
        ensures
            g.wf(),
            spec_is_default_scene(g.data, wall_texture, background),
            g.held_inputs@ =~= Seq::new(16, |i: int| 0u32),
            forall|j: int|
                0 <= j < g.screen_buffer@.len() ==> #[trigger] g.screen_buffer@[j] == 125u8,
    {
        let data = GameData::new(wall_texture, background);
        Game::from_data(data)
    }

    /// A read-only view of the game state, for host overlays.
    pub fn data(&self) -> (d: &GameData)
        ensures
            *d == self.data,
    {
        &self.data
    }

    /// A read-only view of the frame buffer, row-major RGBA, for the host
    /// to blit.
    pub fn screen_buffer(&self) -> (b: &Vec<u8>)
        ensures
            b@ == self.screen_buffer@,
    {
        &self.screen_buffer
    }

    /// The frame buffer's size: four bytes per projection pixel.
    pub fn screen_buffer_len(&self) -> (n: usize)
        requires
            self.wf(),
        ensures
            n == 4 * (self.data.spec_projection_width() * self.data.spec_projection_height()),
    {
        let pw = self.data.projection_width();
        let ph = self.data.projection_height();
        proof {
            assert(pw as int * ph as int <= 0x1000_0000) by (nonlinear_arith)
                requires
                    pw <= 16384,
                    ph <= 16384,
            ;
            assert(pw as int * ph as int == ph as int * pw as int) by (nonlinear_arith);
        }
        4 * (ph * pw)
    }

    /// Records a held key in one of the sixteen input slots; the host
    /// refreshes these between ticks.
    pub fn set_input(&mut self, slot: usize, key: u32)
        requires
            old(self).wf(),
            slot < 16,
        ensures
            final(self).wf(),
            final(self).held_inputs@ == old(self).held_inputs@.update(slot as int, key),
            final(self).data == old(self).data,
            final(self).screen_buffer@ == old(self).screen_buffer@,
    {
        self.held_inputs[slot] = key;
    }

    /// Writes one pixel, bounds-checked in both coordinates: anything at
    /// or beyond the projection edges is silently dropped, leaving the
    /// buffer untouched.
    pub fn draw_pixel(&mut self, x: usize, y: usize, color: RgbColor)
        requires
            old(self).wf(),
        ensures
            final(self).wf(),
            final(self).data == old(self).data,
            final(self).held_inputs@ == old(self).held_inputs@,
            final(self).screen_buffer@ == spec_paint_span(
                old(self).screen_buffer@,
                old(self).data.spec_projection_width(),
                x as int,
                y as int,
                y + 1,
                color,
            ),
    {
        let ghost pre = self.screen_buffer@;
        let pw = self.data.projection_width();
        let ph = self.data.projection_height();
        let n = self.screen_buffer.len();
        if x < pw && y < ph {
            proof {
                crate::texture::lemma_flat_index(pw as int, ph as int, y as int, x as int);
                assert(4 * (x + y * pw) + 3 < n);
            }
            let offset = 4 * (x + y * pw);
            self.screen_buffer[offset] = color.red;
            self.screen_buffer[offset + 1] = color.green;
            self.screen_buffer[offset + 2] = color.blue;
            self.screen_buffer[offset + 3] = color.alpha;
            proof {
                let pwi = pw as int;
                let target = spec_paint_span(pre, pwi, x as int, y as int, y + 1, color);
                assert forall|j: int| 0 <= j < pre.len() implies self.screen_buffer@[j]
                    == target[j] by {
                    let p = j / 4;
                    let k = j % 4;
                    lemma_fundamental_div_mod(j, 4);
                    lemma_mod_bound(j, 4);
                    lemma_fundamental_div_mod(p, pwi);
                    lemma_mod_bound(p, pwi);
                    if p % pwi == x && p / pwi == y {
                        assert(p == x + y * pwi) by (nonlinear_arith)
                            requires
                                p == pwi * (p / pwi) + p % pwi,
                                p % pwi == x,
                                p / pwi == y,
                        ;
                        assert(j == 4 * p + k) by (nonlinear_arith)
                            requires
                                j == 4 * (j / 4) + j % 4,
                                p == j / 4,
                                k == j % 4,
                        ;
                    } else {
                        assert(j / 4 != x + y * pwi) by (nonlinear_arith)
                            requires
                                j / 4 == pwi * (j / 4 / pwi) + j / 4 % pwi,
                                0 <= j / 4 % pwi < pwi,
                                0 <= x < pwi,
                                0 <= y,
                                !(j / 4 % pwi == x && j / 4 / pwi == y),
                        ;
                        assert(j / 4 != x + y * pwi ==> (j < 4 * (x + y * pwi) || j >= 4 * (x + y
                            * pwi) + 4)) by (nonlinear_arith)
                            requires
                                j == 4 * (j / 4) + j % 4,
                                0 <= j % 4 < 4,
                        ;
                    }
                }
                assert(self.screen_buffer@ =~= target);
            }
        } else {
            proof {
                let pwi = pw as int;
                let target = spec_paint_span(pre, pwi, x as int, y as int, y + 1, color);
                assert forall|j: int| 0 <= j < pre.len() implies pre[j] == target[j] by {
                    lemma_mod_bound(j / 4, pwi);
                    if y >= ph {
                        let p = j / 4;
                        assert(p < pwi * (ph as int));
                        assert(p / pwi < ph) by (nonlinear_arith)
                            requires
                                p < pwi * (ph as int),
                                0 <= p,
                                1 <= pwi,
                        ;
                    }
                }
                assert(self.screen_buffer@ =~= target);
            }
        }
    }
}

/// Clipping a span's end at the projection height paints the same bytes:
/// rows at or past the bottom edge have no bytes in the buffer.
pub proof fn lemma_paint_span_clip(
    buf: Seq<u8>,
    pw: int,
    ph: int,
    x: int,
    y1: int,
    y2: int,
    c: RgbColor,
)
    requires
        1 <= pw,
        0 <= ph,
        buf.len() <= 4 * (pw * ph),
    ensures
        spec_paint_span(
            buf,
            pw,
            x,
            y1,
            if y2 < ph {
                y2
            } else {
                ph
            },
            c,
        ) =~= spec_paint_span(buf, pw, x, y1, y2, c),
{
    let clipped: int = if y2 < ph {
        y2
    } else {
        ph
    };
    assert forall|j: int| 0 <= j < buf.len() implies spec_paint_span(buf, pw, x, y1, clipped, c)[j]
        == spec_paint_span(buf, pw, x, y1, y2, c)[j] by {
        lemma_row_in_frame(buf.len() as int, pw, ph, j);
    }
}

/// Every byte of the buffer belongs to a row above the projection height.
proof fn lemma_row_in_frame(len: int, pw: int, ph: int, j: int)
    requires
        1 <= pw,
        0 <= ph,
        0 <= j < len,
        len <= 4 * (pw * ph),
    ensures
        0 <= j / 4 / pw < ph,
{
    lemma_fundamental_div_mod(j, 4);
    lemma_mod_bound(j, 4);
    assert(j / 4 < pw * ph) by (nonlinear_arith)
        requires
            j == 4 * (j / 4) + j % 4,
            0 <= j % 4 < 4,
            j < 4 * (pw * ph),
    ;
    assert(0 <= j / 4 / pw < ph) by (nonlinear_arith)
        requires
            0 <= j / 4 < pw * ph,
            1 <= pw,
    ;
}

impl Game {
    /// Paints a vertical run of pixels in one column with one color, from
    /// row `y1` up to row `y2`; whatever falls outside the frame is
    /// dropped.
    pub fn draw_line(&mut self, x1: usize, y1: usize, y2: usize, color: RgbColor)
        requires
            old(self).wf(),
        ensures
            final(self).wf(),
            final(self).data == old(self).data,
            final(self).held_inputs@ == old(self).held_inputs@,
            final(self).screen_buffer@ == spec_paint_span(
                old(self).screen_buffer@,
                old(self).data.spec_projection_width(),
                x1 as int,
                y1 as int,
                y2 as int,
                color,
            ),
    {
        let ghost pre = self.screen_buffer@;
        let pw = self.data.projection_width();
        let ghost pwi = pw as int;
        let ph = self.data.projection_height();
        let end = if y2 > ph {
            ph
        } else {
            y2
        };
        proof {
            lemma_paint_empty_span(pre, pwi, x1 as int, y1 as int, y1 as int, color);
        }
        let mut y = y1;
        while y < end
            invariant
                old(self).wf(),
                self.wf(),
                self.data == old(self).data,
                self.held_inputs@ == old(self).held_inputs@,
                pre == old(self).screen_buffer@,
                pwi == old(self).data.spec_projection_width(),
                1 <= pwi,
                y1 <= y,
                y <= end || y == y1,
                end <= ph,
                ph == old(self).data.spec_projection_height(),
                self.screen_buffer@ == spec_paint_span(
                    pre,
                    pwi,
                    x1 as int,
                    y1 as int,
                    y as int,
                    color,
                ),
            decreases end - y,
        {
            self.draw_pixel(x1, y, color);
            proof {
                assert forall|j: int| 0 <= j < pre.len() implies self.screen_buffer@[j]
                    == spec_paint_span(pre, pwi, x1 as int, y1 as int, y + 1, color)[j] by {}
                assert(self.screen_buffer@ =~= spec_paint_span(
                    pre,
                    pwi,
                    x1 as int,
                    y1 as int,
                    y + 1,
                    color,
                ));
            }
            y = y + 1;
        }
        proof {
            lemma_paint_span_clip(pre, pwi, ph as int, x1 as int, y1 as int, y2 as int, color);
            if y1 >= end {
                lemma_paint_empty_span(
                    pre,
                    pwi,
                    x1 as int,
                    y1 as int,
                    if (y2 as int) < ph as int {
                        y2 as int
                    } else {
                        ph as int
                    },
                    color,
                );
            }
        }
    }

    /// Paints a vertical run of one column with the panning background:
    /// each pixel samples the background at a horizontal offset of the
    /// facing angle plus the column index (wrapping around the texture
    /// width) and at the output row (wrapping around its height).
    pub fn draw_background(&mut self, x: usize, y1: usize, y2: usize, background_idx: usize)
        requires
            old(self).wf(),
            background_idx < old(self).data.backgrounds@.len(),
            x < old(self).data.spec_projection_width(),
        ensures
            final(self).wf(),
            final(self).data == old(self).data,
            final(self).held_inputs@ == old(self).held_inputs@,
            final(self).screen_buffer@ == spec_paint_backdrop(
                old(self).screen_buffer@,
                old(self).data.spec_projection_width(),
                x as int,
                y1 as int,
                y2 as int,
                old(self).data.backgrounds@[background_idx as int],
                old(self).data.player_angle + x * FP_ONE,
            ),
    {
        let ghost pre = self.screen_buffer@;
        let pw = self.data.projection_width();
        let ghost pwi = pw as int;
        let ghost bg = self.data.backgrounds@[background_idx as int];
        let offset = self.data.player_angle + (x as i64) * FP_ONE;
        let ph = self.data.projection_height();
        let end = if y2 > ph {
            ph
        } else {
            y2
        };
        let mut y = y1;
        proof {
            assert(spec_paint_backdrop(pre, pwi, x as int, y1 as int, y1 as int, bg, offset as int)
                =~= pre);
        }
        while y < end
            invariant
                old(self).wf(),
                self.wf(),
                self.data == old(self).data,
                self.held_inputs@ == old(self).held_inputs@,
                pre == old(self).screen_buffer@,
                pwi == old(self).data.spec_projection_width(),
                bg == old(self).data.backgrounds@[background_idx as int],
                background_idx < old(self).data.backgrounds@.len(),
                offset == old(self).data.player_angle + x * FP_ONE,
                i64::MIN < offset,
                y1 <= y,
                y <= end || y == y1,
                end <= ph,
                ph == old(self).data.spec_projection_height(),
                self.screen_buffer@ == spec_paint_backdrop(
                    pre,
                    pwi,
                    x as int,
                    y1 as int,
                    y as int,
                    bg,
                    offset as int,
                ),
            decreases end - y,
        {
            let bgref = &self.data.backgrounds[background_idx];
            let color = background_sample(bgref, offset, y);
            self.draw_pixel(x, y, color);
            proof {
                assert forall|j: int| 0 <= j < pre.len() implies self.screen_buffer@[j]
                    == spec_paint_backdrop(
                    pre,
                    pwi,
                    x as int,
                    y1 as int,
                    y + 1,
                    bg,
                    offset as int,
                )[j] by {}
                assert(self.screen_buffer@ =~= spec_paint_backdrop(
                    pre,
                    pwi,
                    x as int,
                    y1 as int,
                    y + 1,
                    bg,
                    offset as int,
                ));
            }
            y = y + 1;
        }
        proof {
            let clipped: int = if (y2 as int) < ph as int {
                y2 as int
            } else {
                ph as int
            };
            assert forall|j: int| 0 <= j < pre.len() implies spec_paint_backdrop(
                pre,
                pwi,
                x as int,
                y1 as int,
                clipped,
                bg,
                offset as int,
            )[j] == spec_paint_backdrop(
                pre,
                pwi,
                x as int,
                y1 as int,
                y2 as int,
                bg,
                offset as int,
            )[j] by {
                lemma_row_in_frame(pre.len() as int, pwi, ph as int, j);
            }
            if y1 >= end {
                assert(spec_paint_backdrop(
                    pre,
                    pwi,
                    x as int,
                    y1 as int,
                    y1 as int,
                    bg,
                    offset as int,
                ) =~= spec_paint_backdrop(
                    pre,
                    pwi,
                    x as int,
                    y1 as int,
                    clipped,
                    bg,
                    offset as int,
                ));
            }
            assert(self.screen_buffer@ =~= spec_paint_backdrop(
                pre,
                pwi,
                x as int,
                y1 as int,
                y2 as int,
                bg,
                offset as int,
            ));
        }
    }
}

/// The frame buffer after painting a vertical run of one column with the
/// background: each covered pixel takes the background sample for its own
/// row at the given horizontal offset; everything else keeps its value.
pub open spec fn spec_paint_backdrop(
    buf: Seq<u8>,
    pw: int,
    x: int,
    y1: int,
    y2: int,
    bg: FileTexture,
    off: int,
) -> Seq<u8> {
    Seq::new(
        buf.len(),
        |j: int|
            {
                let p = j / 4;
                if p % pw == x && y1 <= p / pw < y2 {
                    spec_channel(spec_background_sample(&bg, off, p / pw), j % 4)
                } else {
                    buf[j]
                }
            },
    )
}

/// The texel row whose painted span covers an output row, among the first
/// `n` texel rows — the last one wins, since later spans overpaint
/// earlier ones — and its color; `None` where no span covers the row.
pub open spec fn spec_texel_for_row(
    t: Texture,
    tex_x: int,
    y0: int,
    incr: int,
    n: nat,
    row: int,
) -> Option<RgbColor>
    decreases n,
{
    if n == 0 {
        None
    } else {
        let s = clamp0_floor(y0 + (n - 1) * incr);
        let e = clamp0_floor(y0 + (n - 1) * incr + incr + FP_HALF);
        if s <= row < e {
            Some(spec_texel(&t, n - 1, tex_x))
        } else {
            spec_texel_for_row(t, tex_x, y0, incr, (n - 1) as nat, row)
        }
    }
}

/// The frame buffer after painting a wall slice in one column: each pixel
/// of the column covered by some texel row's span takes that texel's
/// color (the last covering texel winning); everything else keeps its
/// value.
pub open spec fn spec_paint_wall(
    buf: Seq<u8>,
    pw: int,
    x: int,
    t: Texture,
    tex_x: int,
    y0: int,
    incr: int,
    n: nat,
) -> Seq<u8> {
    Seq::new(
        buf.len(),
        |j: int|
            {
                let p = j / 4;
                if p % pw == x {
                    match spec_texel_for_row(t, tex_x, y0, incr, n, p / pw) {
                        Some(c) => spec_channel(c, j % 4),
                        None => buf[j],
                    }
                } else {
                    buf[j]
                }
            },
    )
}

impl Game {
    /// Paints one column's wall slice: the slice spans `wall_height`
    /// pixels either side of the horizon, each texel row of the wall
    /// texture's fixed column covering its share of the slice, scaled
    /// nearest-neighbor and rounded by half a texel.
    pub fn draw_texture(
        &mut self,
        x: usize,
        wall_height: i64,
        texture_pos_x: usize,
        texture_idx: usize,
    )
        requires
            old(self).wf(),
            x < old(self).data.spec_projection_width(),
            texture_idx < old(self).data.textures@.len(),
            texture_pos_x < old(self).data.textures@[texture_idx as int].spec_width(),
            0 <= wall_height <= old(self).data.spec_projection_half_height() * FP_ONE,
        ensures
            final(self).wf(),
            final(self).data == old(self).data,
            final(self).held_inputs@ == old(self).held_inputs@,
            final(self).screen_buffer@ == spec_paint_wall(
                old(self).screen_buffer@,
                old(self).data.spec_projection_width(),
                x as int,
                old(self).data.textures@[texture_idx as int],
                texture_pos_x as int,
                old(self).data.spec_projection_half_height() * FP_ONE - wall_height * FP_ONE,
                wall_height * 2 * FP_ONE / old(self).data.textures@[
                    texture_idx as int
                ].spec_height(),
                old(self).data.textures@[texture_idx as int].spec_height() as nat,
            ),
    {
        let ghost pre = self.screen_buffer@;
        let pw = self.data.projection_width();
        let ghost pwi = pw as int;
        let ghost t = self.data.textures@[texture_idx as int];
        let phh = self.data.projection_half_height();
        let th = self.data.textures[texture_idx].height();
        proof {
            assert(self.data.textures@[texture_idx as int].wf());
            assert(0 <= wall_height * (FP_ONE as int) <= 0x2000_0000_0000) by (nonlinear_arith)
                requires 0 <= wall_height <= 0x2000_0000;
            assert(0 <= wall_height * 2 * FP_ONE <= 0x4000_0000_0000) by (nonlinear_arith)
                requires 0 <= wall_height <= 0x2000_0000;
            assert(phh as int * FP_ONE <= 0x2000_0000) by (nonlinear_arith)
                requires phh <= 8192;
        }
        let num = wall_height * 2 * FP_ONE;
        let incr = ((num as u64) / (th as u64)) as i64;
        let ghost y0 = phh as int * FP_ONE - wall_height * FP_ONE;
        proof {
            vstd::arithmetic::div_mod::lemma_div_pos_is_pos(num as int, th as int);
            vstd::arithmetic::div_mod::lemma_fundamental_div_mod(num as int, th as int);
            vstd::arithmetic::div_mod::lemma_mod_bound(num as int, th as int);
            assert(th as int * (num as int / th as int) <= num) by {
                assert(num as int % th as int >= 0);
            }
        }
        let mut y = (phh as i64) * FP_ONE - wall_height * FP_ONE;
        let mut i: usize = 0;
        proof {
            assert(spec_paint_wall(pre, pwi, x as int, t, texture_pos_x as int, y0, incr as int, 0)
                =~= pre);
        }
        while i < th
            invariant
                old(self).wf(),
                self.wf(),
                self.data == old(self).data,
                self.held_inputs@ == old(self).held_inputs@,
                pre == old(self).screen_buffer@,
                pwi == old(self).data.spec_projection_width(),
                1 <= pwi,
                t == old(self).data.textures@[texture_idx as int],
                texture_idx < old(self).data.textures@.len(),
                t.wf(),
                texture_pos_x < t.spec_width(),
                th == t.spec_height(),
                i <= th,
                0 <= incr,
                th as int * (incr as int) <= wall_height * 2 * FP_ONE,
                incr == wall_height * 2 * FP_ONE / (th as int),
                0 <= wall_height <= 0x2000_0000,
                y0 == old(self).data.spec_projection_half_height() * FP_ONE - wall_height
                    * FP_ONE,
                -0x2000_0000_0000 <= y0 <= 0x2000_0000,
                y == y0 + i * incr,
                0 <= i * incr <= th as int * (incr as int),
                self.screen_buffer@ == spec_paint_wall(
                    pre,
                    pwi,
                    x as int,
                    t,
                    texture_pos_x as int,
                    y0,
                    incr as int,
                    i as nat,
                ),
            decreases th - i,
        {
            proof {
                assert((i + 1) as int * (incr as int) == i as int * (incr as int) + incr)
                    by (nonlinear_arith);
                assert((i + 1) as int * (incr as int) <= th as int * (incr as int))
                    by (nonlinear_arith)
                    requires
                        i + 1 <= th,
                        0 <= incr,
                ;
                assert(0 <= (i + 1) as int * (incr as int)) by (nonlinear_arith)
                    requires
                        0 <= i,
                        0 <= incr,
                ;
            }
            let color = self.data.textures[texture_idx].texel(i, texture_pos_x);
            let s = fx_floor_clamped(y);
            let e = fx_floor_clamped(y + incr + FP_HALF);
            self.draw_line(x, s, e, color);
            proof {
                let target = spec_paint_wall(
                    pre,
                    pwi,
                    x as int,
                    t,
                    texture_pos_x as int,
                    y0,
                    incr as int,
                    (i + 1) as nat,
                );
                assert forall|j: int| 0 <= j < pre.len() implies self.screen_buffer@[j]
                    == target[j] by {}
                assert(self.screen_buffer@ =~= target);
            }
            y = y + incr;
            i = i + 1;
        }
    }
}

/// One column of the frame, rendered: the wall slice painted from the
/// struck texture's fixed column, the panning sky above it, and the flat
/// floor color below it, exactly as the per-column painters lay them
/// down, later paints over earlier ones. A column whose march found no
/// wall within its budget keeps its bytes.
pub open spec fn spec_render_column(buf: Seq<u8>, d: GameData, i: int) -> Seq<u8> {
    match spec_cast_column(d, i) {
        None => buf,
        Some(ch) => {
            let pw = d.spec_projection_width();
            let ph = d.spec_projection_height();
            let phh = d.spec_projection_half_height();
            let t = d.textures@[ch.texture_index as int];
            let walls = spec_paint_wall(
                buf,
                pw,
                i,
                t,
                ch.texture_x as int,
                phh * FP_ONE - ch.wall_height * FP_ONE,
                ch.wall_height * 2 * FP_ONE / t.spec_height(),
                t.spec_height() as nat,
            );
            let sky_end: int = if ch.wall_height >= phh {
                0
            } else {
                phh - ch.wall_height
            };
            let sky = spec_paint_backdrop(
                walls,
                pw,
                i,
                0,
                sky_end,
                d.backgrounds@[0],
                d.player_angle + i * FP_ONE,
            );
            spec_paint_span(
                sky,
                pw,
                i,
                phh + ch.wall_height,
                ph,
                RgbColor { red: 95, green: 87, blue: 79, alpha: 255 },
            )
        },
    }
}

/// The whole frame after rendering the first `n` columns, left to right.
pub open spec fn spec_render_frame(buf: Seq<u8>, d: GameData, n: int) -> Seq<u8>
    decreases n,
{
    if n <= 0 {
        buf
    } else {
        spec_render_column(spec_render_frame(buf, d, n - 1), d, n - 1)
    }
}

/// The state after applying the first `n` held keys, in slot order.
pub open spec fn spec_apply_keys(d: GameData, keys: Seq<u32>, n: int) -> GameData
    decreases n,
{
    if n <= 0 {
        d
    } else {
        spec_apply_key(spec_apply_keys(d, keys, n - 1), keys[n - 1])
    }
}

impl Game {
    /// Applies every held key in slot order: forward and backward moves
    /// with axis-separated collision, turns with wraparound; unrecognized
    /// key codes change nothing.
    pub fn handle_input(&mut self)
        requires
            old(self).wf(),
        ensures
            final(self).wf(),
            final(self).data == spec_apply_keys(old(self).data, old(self).held_inputs@, 16),
            final(self).held_inputs@ == old(self).held_inputs@,
            final(self).screen_buffer@ == old(self).screen_buffer@,
    {
        let mut i: usize = 0;
        while i < 16
            invariant
                old(self).wf(),
                i <= 16,
                self.held_inputs@ == old(self).held_inputs@,
                self.screen_buffer@ == old(self).screen_buffer@,
                self.data == spec_apply_keys(old(self).data, old(self).held_inputs@, i as int),
                self.data.wf(),
                self.data.screen_width == old(self).data.screen_width,
                self.data.screen_height == old(self).data.screen_height,
                self.data.scale == old(self).data.scale,
            decreases 16 - i,
        {
            let key = self.held_inputs[i];
            apply_key(&mut self.data, key);
            i = i + 1;
        }
    }

    /// Casts one ray per projection column and paints that column: the
    /// textured wall slice around the horizon, the panning sky above it,
    /// and a flat floor color below it. A column whose march exhausts its
    /// budget without striking a wall is left as it was.
    fn ray_casting(&mut self)
        requires
            old(self).wf(),
        ensures
            final(self).wf(),
            final(self).data == old(self).data,
            final(self).held_inputs@ == old(self).held_inputs@,
            final(self).screen_buffer@ == spec_render_frame(
                old(self).screen_buffer@,
                old(self).data,
                old(self).data.spec_projection_width(),
            ),
    {
        let ghost pre = self.screen_buffer@;
        let ghost dd = self.data;
        let pw = self.data.projection_width();
        let ph = self.data.projection_height();
        let phh = self.data.projection_half_height();
        let mut i: usize = 0;
        while i < pw
            invariant
                old(self).wf(),
                self.wf(),
                self.data == old(self).data,
                dd == old(self).data,
                pre == old(self).screen_buffer@,
                self.held_inputs@ == old(self).held_inputs@,
                pw == self.data.spec_projection_width(),
                ph == self.data.spec_projection_height(),
                phh == self.data.spec_projection_half_height(),
                i <= pw,
                self.screen_buffer@ == spec_render_frame(pre, dd, i as int),
            decreases pw - i,
        {
            let ghost before = self.screen_buffer@;
            match cast_column(&self.data, i) {
                None => {
                    proof {
                        assert(spec_render_column(before, dd, i as int) == before);
                    }
                },
                Some(ch) => {
                    self.draw_texture(i, ch.wall_height, ch.texture_x, ch.texture_index);
                    let wh = ch.wall_height as usize;
                    let sky_end = if wh >= phh {
                        0
                    } else {
                        phh - wh
                    };
                    self.draw_background(i, 0, sky_end, 0);
                    let floor_start = phh + wh;
                    self.draw_line(i, floor_start, ph, RgbColor::rgb(95, 87, 79));
                    proof {
                        assert(self.screen_buffer@ == spec_render_column(before, dd, i as int));
                    }
                },
            }
            proof {
                assert(spec_render_frame(pre, dd, i + 1) == spec_render_column(
                    spec_render_frame(pre, dd, i as int),
                    dd,
                    i as int,
                ));
            }
            i = i + 1;
        }
    }

    /// One frame: apply the held inputs to the player, then repaint every
    /// column from the new state.
    pub fn tick(&mut self)
        requires
            old(self).wf(),
        ensures
            final(self).wf(),
            final(self).data == spec_apply_keys(old(self).data, old(self).held_inputs@, 16),
            final(self).held_inputs@ == old(self).held_inputs@,
            final(self).screen_buffer@ == spec_render_frame(
                old(self).screen_buffer@,
                spec_apply_keys(old(self).data, old(self).held_inputs@, 16),
                spec_apply_keys(
                    old(self).data,
                    old(self).held_inputs@,
                    16,
                ).spec_projection_width(),
            ),
    {
        self.handle_input();
        self.ray_casting();
    }
}

} // verus!
