//! The tile grid. A tile code of zero is open space; a nonzero code is a
//! solid wall and selects the wall texture with index `code - 1`.
//!
//! A well-formed grid is rectangular and fully enclosed by nonzero border
//! tiles, so the ray march and the collision probes can never walk off the
//! grid. The enclosure is checked once, when the grid is built.

use vstd::prelude::*;

verus! {

/// A grid is well formed when it is rectangular, of bounded size, and its
/// border rows and columns hold only nonzero (solid) tiles.
pub open spec fn grid_wf(g: Seq<Seq<u8>>) -> bool {
    &&& 3 <= g.len() <= 1024
    &&& 3 <= g[0].len() <= 1024
    &&& forall|r: int| 0 <= r < g.len() ==> (#[trigger] g[r]).len() == g[0].len()
    &&& forall|c: int|
        0 <= c < g[0].len() ==> #[trigger] g[0][c] != 0 && g[g.len() - 1][c] != 0
    &&& forall|r: int|
        0 <= r < g.len() ==> #[trigger] g[r][0] != 0 && g[r][g[0].len() - 1] != 0
}

/// Total tile lookup: everything outside the grid counts as solid.
pub open spec fn grid_tile(g: Seq<Seq<u8>>, r: int, c: int) -> u8 {
    if 0 <= r < g.len() && 0 <= c < g[r].len() {
        g[r][c]
    } else {
        1
    }
}

/// In a well-formed grid an open tile is strictly inside the border.
pub proof fn lemma_open_tile_is_interior(g: Seq<Seq<u8>>, r: int, c: int)
    requires
        grid_wf(g),
        grid_tile(g, r, c) == 0,
    ensures
        1 <= r < g.len() - 1,
        1 <= c < g[0].len() - 1,
{
    assert(g[r].len() == g[0].len());
    if r == 0 {
        assert(g[0][c] != 0);
    }
    if r == g.len() - 1 {
        assert(g[g.len() - 1][c] != 0);
    }
    if c == 0 {
        assert(g[r][0] != 0);
    }
    if c == g[0].len() - 1 {
        assert(g[r][g[0].len() - 1] != 0);
    }
}

/// An immutable rectangular grid of tile codes, enclosed by solid tiles.
pub struct Grid {
    rows: Vec<Vec<u8>>,
}

impl View for Grid {
    type V = Seq<Seq<u8>>;

    closed spec fn view(&self) -> Seq<Seq<u8>> {
        self.rows@.map_values(|row: Vec<u8>| row@)
    }
}

impl Grid {
    /// The grid is always well formed.
    pub open spec fn wf(&self) -> bool {
        grid_wf(self@)
    }

    /// Every `Grid` value carries its well-formedness: the only
    /// constructor checks it.
    #[verifier::type_invariant]
    pub open spec fn type_inv(&self) -> bool {
        self.wf()
    }

    /// Builds a grid after checking the rows: rectangular, within size
    /// bounds, and enclosed by nonzero border tiles. Returns `None` exactly
    /// when the rows do not form such a grid.
    pub fn from_rows(rows: Vec<Vec<u8>>) -> (result: Option<Grid>)
        ensures
            result is Some <==> grid_wf(rows@.map_values(|row: Vec<u8>| row@)),
            match result {
                Some(m) => m@ == rows@.map_values(|row: Vec<u8>| row@) && m.wf(),
                None => true,
            },
    {
        let ghost g = rows@.map_values(|row: Vec<u8>| row@);
        if rows.len() < 3 || rows.len() > 1024 {
            return None;
        }
        let w = rows[0].len();
        if w < 3 || w > 1024 {
            return None;
        }
        let h = rows.len();
        let mut r: usize = 0;
        while r < h
            invariant
                h == rows.len(),
                w == g[0].len(),
                g == rows@.map_values(|row: Vec<u8>| row@),
                r <= h,
                3 <= w <= 1024,
                3 <= h <= 1024,
                forall|i: int| 0 <= i < r ==> (#[trigger] g[i]).len() == w,
                forall|i: int| 0 <= i < r ==> #[trigger] g[i][0] != 0 && g[i][w - 1] != 0,
            decreases h - r,
        {
            proof {
                assert(g[r as int] == rows@[r as int]@);
            }
            if rows[r].len() != w {
                proof {
                    assert(g[r as int].len() != g[0].len());
                }
                return None;
            }
            if rows[r][0] == 0 || rows[r][w - 1] == 0 {
                proof {
                    assert(g[r as int][0] == 0 || g[r as int][w - 1] == 0);
                }
                return None;
            }
            r = r + 1;
        }
        let mut c: usize = 0;
        while c < w
            invariant
                h == rows.len(),
                w == g[0].len(),
                g == rows@.map_values(|row: Vec<u8>| row@),
                c <= w,
                3 <= w <= 1024,
                3 <= h <= 1024,
                forall|i: int| 0 <= i < h ==> (#[trigger] g[i]).len() == w,
                forall|i: int| 0 <= i < c ==> #[trigger] g[0][i] != 0 && g[h - 1][i] != 0,
            decreases w - c,
        {
            proof {
                assert(g[0] == rows@[0]@);
                assert(g[h - 1] == rows@[h - 1]@);
                assert(g[h - 1].len() == w);
            }
            if rows[0][c] == 0 || rows[h - 1][c] == 0 {
                proof {
                    assert(g[0][c as int] == 0 || g[h - 1][c as int] == 0);
                }
                return None;
            }
            proof {
                assert(g[0][c as int] != 0 && g[h - 1][c as int] != 0);
            }
            c = c + 1;
        }
        Some(Grid { rows })
    }

    /// Number of rows.
    pub fn height(&self) -> (h: usize)
        ensures
            h == self@.len(),
    {
        self.rows.len()
    }

    /// Number of columns.
    pub fn width(&self) -> (w: usize)
        requires
            self.wf(),
        ensures
            w == self@[0].len(),
    {
        self.rows[0].len()
    }

    /// The tile code at a row and column inside the grid.
    pub fn tile(&self, r: usize, c: usize) -> (t: u8)
        requires
            self.wf(),
            r < self@.len(),
            c < self@[0].len(),
        ensures
            t == grid_tile(self@, r as int, c as int),
    {
        proof {
            assert(self@[r as int] == self.rows@[r as int]@);
            assert(self@[r as int].len() == self@[0].len());
        }
        self.rows[r][c]
    }

    /// Whether every nonzero tile code is at most `limit`, so that
    /// `code - 1` always indexes a table of `limit` textures.
    pub open spec fn codes_bounded(g: Seq<Seq<u8>>, limit: int) -> bool {
        forall|r: int, c: int|
            0 <= r < g.len() && 0 <= c < g[r].len() ==> (#[trigger] g[r][c] == 0 || g[r][c]
                <= limit)
    }

    /// Checks that every nonzero tile code is at most `limit`.
    pub fn check_codes(&self, limit: usize) -> (ok: bool)
        requires
            self.wf(),
        ensures
            ok == Self::codes_bounded(self@, limit as int),
    {
        let h = self.rows.len();
        let mut r: usize = 0;
        while r < h
            invariant
                h == self@.len(),
                self.wf(),
                r <= h,
                forall|i: int, j: int|
                    0 <= i < r && 0 <= j < self@[i].len() ==> (#[trigger] self@[i][j] == 0
                        || self@[i][j] <= limit),
            decreases h - r,
        {
            let w = self.rows[r].len();
            let mut c: usize = 0;
            while c < w
                invariant
                    h == self@.len(),
                    self.wf(),
                    r < h,
                    w == self@[r as int].len(),
                    c <= w,
                    forall|i: int, j: int|
                        0 <= i < r && 0 <= j < self@[i].len() ==> (#[trigger] self@[i][j] == 0
                            || self@[i][j] <= limit),
                    forall|j: int|
                        0 <= j < c ==> (#[trigger] self@[r as int][j] == 0 || self@[r as int][j]
                            <= limit),
                decreases w - c,
            {
                let t = self.rows[r][c];
                if t != 0 && (t as usize) > limit {
                    return false;
                }
                c = c + 1;
            }
            r = r + 1;
        }
        true
    }
}

} // verus!
