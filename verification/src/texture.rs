//! Image sources for walls and backgrounds.
//!
//! A texture is either a palette-indexed bitmap held in memory or a flat
//! row-major pixel array built from raw RGBA bytes delivered by an asset
//! loader. Both variants expose their dimensions uniformly; only color
//! sampling distinguishes them.

use vstd::prelude::*;

verus! {

use crate::color::RgbColor;
use crate::fixed::{FP_ONE, euclid_mod, fx_floor};
use vstd::arithmetic::div_mod::{lemma_mod_bound, lemma_mod_add_multiples_vanish};

/// A palette-indexed bitmap: each cell selects a color from the palette.
pub struct InMemoryTexture {
    pub width: usize,
    pub height: usize,
    pub bitmap: Vec<Vec<u8>>,
    pub colors: Vec<RgbColor>,
}

impl InMemoryTexture {
    /// Rectangular bitmap whose cells all index the palette; dimensions
    /// are capped so that a flat pixel count, times four bytes, fits even
    /// a 32-bit address space.
    pub open spec fn wf(&self) -> bool {
        &&& 1 <= self.width <= 16384
        &&& 1 <= self.height <= 16384
        &&& self.bitmap@.len() == self.height
        &&& forall|r: int|
            0 <= r < self.height ==> (#[trigger] self.bitmap@[r])@.len() == self.width
        &&& forall|r: int, c: int|
            0 <= r < self.height && 0 <= c < self.width ==> (#[trigger] self.bitmap@[r]@[c])
                < self.colors@.len()
    }
}

/// A flat row-major pixel array with explicit dimensions.
pub struct FileTexture {
    pub width: usize,
    pub height: usize,
    pub data: Vec<RgbColor>,
}

impl FileTexture {
    /// The pixel array covers the dimensions exactly; dimensions are
    /// capped so that the byte count, four per pixel, fits even a 32-bit
    /// address space.
    pub open spec fn wf(&self) -> bool {
        &&& 1 <= self.width <= 16384
        &&& 1 <= self.height <= 16384
        &&& self.data@.len() == self.width * self.height
    }

    /// Builds a pixel texture from raw bytes in row-major RGBA order, four
    /// bytes per pixel. Returns `None` exactly when the dimensions are out
    /// of range or the byte count does not match them.
    pub fn from_bytes(width: usize, height: usize, bytes: &Vec<u8>) -> (result: Option<
        FileTexture,
    >)
        ensures
            result is Some <==> (1 <= width <= 16384 && 1 <= height <= 16384 && bytes@.len()
                == 4 * (width * height)),
            match result {
                Some(t) => {
                    &&& t.wf()
                    &&& t.width == width
                    &&& t.height == height
                    &&& forall|i: int|
                        0 <= i < width * height ==> #[trigger] t.data@[i] == (RgbColor {
                            red: bytes@[4 * i],
                            green: bytes@[4 * i + 1],
                            blue: bytes@[4 * i + 2],
                            alpha: bytes@[4 * i + 3],
                        })
                },
                None => true,
            },
    {
        if width < 1 || width > 16384 || height < 1 || height > 16384 {
            return None;
        }
        proof {
            assert(width * height <= 0x1000_0000) by (nonlinear_arith)
                requires width <= 16384, height <= 16384;
        }
        let count = width * height;
        if bytes.len() != 4 * count {
            return None;
        }
        let mut data: Vec<RgbColor> = Vec::new();
        let mut i: usize = 0;
        while i < count
            invariant
                count == width * height,
                count <= 0x1000_0000,
                bytes@.len() == 4 * count,
                i <= count,
                data@.len() == i,
                forall|j: int|
                    0 <= j < i ==> #[trigger] data@[j] == (RgbColor {
                        red: bytes@[4 * j],
                        green: bytes@[4 * j + 1],
                        blue: bytes@[4 * j + 2],
                        alpha: bytes@[4 * j + 3],
                    }),
            decreases count - i,
        {
            let c = RgbColor::rgba(
                bytes[4 * i],
                bytes[4 * i + 1],
                bytes[4 * i + 2],
                bytes[4 * i + 3],
            );
            data.push(c);
            i = i + 1;
        }
        Some(FileTexture { width, height, data })
    }

    /// The pixel at a row and column inside the texture.
    pub fn pixel(&self, row: usize, col: usize) -> (c: RgbColor)
        requires
            self.wf(),
            row < self.height,
            col < self.width,
        ensures
            c == spec_pixel(self, row as int, col as int),
    {
        let n = self.data.len();
        proof {
            lemma_flat_index(self.width as int, self.height as int, row as int, col as int);
            assert(col + row * self.width < n);
        }
        self.data[col + row * self.width]
    }
}

/// The pixel of a flat texture at a row and column.
pub open spec fn spec_pixel(t: &FileTexture, row: int, col: int) -> RgbColor {
    t.data@[col + row * t.width]
}

/// A row-major flat index stays inside the pixel array.
pub proof fn lemma_flat_index(w: int, h: int, row: int, col: int)
    requires
        0 <= col < w,
        0 <= row < h,
    ensures
        0 <= col + row * w < w * h,
{
    assert(col + row * w < w * h) by (nonlinear_arith)
        requires 0 <= col < w, 0 <= row < h;
    assert(0 <= row * w) by (nonlinear_arith)
        requires 0 <= row, 0 < w;
}

/// An image source: palette-indexed or a flat pixel array.
pub enum Texture {
    InMemory(InMemoryTexture),
    File(FileTexture),
}

impl Texture {
    /// Either variant is well formed.
    pub open spec fn wf(&self) -> bool {
        match self {
            Texture::InMemory(t) => t.wf(),
            Texture::File(t) => t.wf(),
        }
    }

    /// The texture's width in texels.
    pub open spec fn spec_width(&self) -> int {
        match self {
            Texture::InMemory(t) => t.width as int,
            Texture::File(t) => t.width as int,
        }
    }

    /// The texture's height in texels.
    pub open spec fn spec_height(&self) -> int {
        match self {
            Texture::InMemory(t) => t.height as int,
            Texture::File(t) => t.height as int,
        }
    }

    /// Width, uniform over the two variants.
    pub fn width(&self) -> (w: usize)
        ensures
            w == self.spec_width(),
    {
        match self {
            Texture::InMemory(t) => t.width,
            Texture::File(t) => t.width,
        }
    }

    /// Height, uniform over the two variants.
    pub fn height(&self) -> (h: usize)
        ensures
            h == self.spec_height(),
    {
        match self {
            Texture::InMemory(t) => t.height,
            Texture::File(t) => t.height,
        }
    }

    /// The color of the texel at a row and column inside the texture.
    pub fn texel(&self, row: usize, col: usize) -> (c: RgbColor)
        requires
            self.wf(),
            row < self.spec_height(),
            col < self.spec_width(),
        ensures
            c == spec_texel(self, row as int, col as int),
    {
        match self {
            Texture::InMemory(t) => {
                proof {
                    assert(t.bitmap@[row as int]@.len() == t.width);
                }
                let idx = t.bitmap[row][col];
                t.colors[idx as usize]
            },
            Texture::File(t) => t.pixel(row, col),
        }
    }
}

/// The color of a texel: a palette lookup for the bitmap variant, a flat
/// row-major lookup for the pixel variant.
pub open spec fn spec_texel(t: &Texture, row: int, col: int) -> RgbColor {
    match t {
        Texture::InMemory(m) => m.colors@[m.bitmap@[row]@[col] as int],
        Texture::File(f) => spec_pixel(f, row, col),
    }
}

/// The background sample at a horizontal fixed-point offset and an output
/// row: the offset wraps around the texture width with a Euclidean
/// remainder and is then rounded up to a texel column; the row wraps with
/// an ordinary remainder.
pub open spec fn spec_background_sample(t: &FileTexture, off: int, y: int) -> RgbColor {
    let m = off % (t.width * FP_ONE);
    let tx = ((m + FP_ONE - 1) / (FP_ONE as int)) % (t.width as int);
    let ty = y % (t.height as int);
    spec_pixel(t, ty, tx)
}

/// Samples a background texture: the horizontal offset (fixed point) pans
/// and wraps around the texture seamlessly, the row wraps over its height.
pub fn background_sample(t: &FileTexture, off: i64, y: usize) -> (c: RgbColor)
    requires
        t.wf(),
        i64::MIN < off,
    ensures
        c == spec_background_sample(t, off as int, y as int),
{
    let span = (t.width as i64) * FP_ONE;
    let m = euclid_mod(off, span);
    let tx = fx_floor(m + FP_ONE - 1) % t.width;
    let ty = y % t.height;
    proof {
        lemma_mod_bound((m + FP_ONE - 1) as int / (FP_ONE as int), t.width as int);
        lemma_mod_bound(y as int, t.height as int);
    }
    t.pixel(ty, tx)
}

/// Panning wrap: sampling one full texture width further along gives the
/// same color, so the sky pans seamlessly.
pub proof fn lemma_background_wrap(t: &FileTexture, off: int, y: int)
    requires
        t.wf(),
    ensures
        spec_background_sample(t, off + t.width * FP_ONE, y) == spec_background_sample(
            t,
            off,
            y,
        ),
{
    lemma_mod_add_multiples_vanish(off, t.width * FP_ONE);
}

impl InMemoryTexture {
    /// Checks the palette bitmap: bounded dimensions, rectangular, and
    /// every cell indexing into the palette.
    pub fn check(&self) -> (ok: bool)
        ensures
            ok == self.wf(),
    {
        if self.width < 1 || self.width > 16384 || self.height < 1 || self.height > 16384 {
            return false;
        }
        if self.bitmap.len() != self.height {
            return false;
        }
        let mut r: usize = 0;
        while r < self.height
            invariant
                1 <= self.width <= 16384,
                1 <= self.height <= 16384,
                self.bitmap@.len() == self.height,
                r <= self.height,
                forall|i: int| 0 <= i < r ==> (#[trigger] self.bitmap@[i])@.len() == self.width,
                forall|i: int, j: int|
                    0 <= i < r && 0 <= j < self.width ==> (#[trigger] self.bitmap@[i]@[j])
                        < self.colors@.len(),
            decreases self.height - r,
        {
            if self.bitmap[r].len() != self.width {
                return false;
            }
            let mut c: usize = 0;
            while c < self.width
                invariant
                    1 <= self.width <= 16384,
                    1 <= self.height <= 16384,
                    self.bitmap@.len() == self.height,
                    r < self.height,
                    self.bitmap@[r as int]@.len() == self.width,
                    c <= self.width,
                    forall|i: int, j: int|
                        0 <= i < r && 0 <= j < self.width ==> (#[trigger] self.bitmap@[i]@[j])
                            < self.colors@.len(),
                    forall|j: int|
                        0 <= j < c ==> (#[trigger] self.bitmap@[r as int]@[j])
                            < self.colors@.len(),
                decreases self.width - c,
            {
                if (self.bitmap[r][c] as usize) >= self.colors.len() {
                    return false;
                }
                c = c + 1;
            }
            r = r + 1;
        }
        true
    }
}

impl FileTexture {
    /// Checks the pixel array: bounded dimensions covered exactly.
    pub fn check(&self) -> (ok: bool)
        ensures
            ok == self.wf(),
    {
        if self.width < 1 || self.width > 16384 || self.height < 1 || self.height > 16384 {
            return false;
        }
        proof {
            assert(self.width * self.height <= 0x1000_0000) by (nonlinear_arith)
                requires self.width <= 16384, self.height <= 16384;
        }
        self.data.len() == self.width * self.height
    }
}

impl Texture {
    /// Checks either variant's well-formedness.
    pub fn check(&self) -> (ok: bool)
        ensures
            ok == self.wf(),
    {
        match self {
            Texture::InMemory(t) => t.check(),
            Texture::File(t) => t.check(),
        }
    }
}

} // verus!
