use vstd::prelude::*;

verus! {

/// One RGBA pixel; every channel ranges over 0..=255.
#[derive(Clone, Copy, Debug, PartialEq, Eq, Structural)]
pub struct Rgba {
    pub r: u8,
    pub g: u8,
    pub b: u8,
    pub a: u8,
}

/// A decoded image: an immutable 2D grid of RGBA pixels with explicit
/// dimensions, stored row-major.
pub struct PixelGrid {
    pub width: u32,
    pub height: u32,
    pub pixels: Vec<Rgba>,
}

impl PixelGrid {
    /// Well-formed: the pixel vector holds exactly `width * height` entries.
    pub open spec fn wf(&self) -> bool {
        self.pixels@.len() == self.width * self.height
    }

    /// The pixel stored at column `x`, row `y` (row-major layout).
    pub open spec fn spec_pixel(&self, x: int, y: int) -> Rgba {
        self.pixels@[y * self.width + x]
    }

    /// The pixel at `(x, y)`, or `None` when the coordinate lies outside
    /// the grid.
    pub open spec fn spec_lookup(&self, x: int, y: int) -> Option<Rgba> {
        if 0 <= x < self.width && 0 <= y < self.height {
            Option::Some(self.spec_pixel(x, y))
        } else {
            Option::None
        }
    }

    /// Bounds-checked pixel lookup.
    pub fn get_pixel_checked(&self, x: u32, y: u32) -> (r: Option<Rgba>)
        requires
            self.wf(),
        ensures
            r == self.spec_lookup(x as int, y as int),
    {
        if x < self.width && y < self.height {
            proof {
                assert((y as int) * (self.width as int) + (x as int)
                    < (self.width as int) * (self.height as int)) by (nonlinear_arith)
                    requires
                        0 <= (x as int) && (x as int) < self.width as int,
                        0 <= (y as int) && (y as int) < self.height as int,
                ;
            }
            let n = self.pixels.len();
            let idx: usize = (y as usize) * (self.width as usize) + (x as usize);
            proof {
                assert(idx < n);
            }
            Some(self.pixels[idx])
        } else {
            None
        }
    }

    /// Builds a grid from raw RGBA bytes, four bytes per pixel in row-major
    /// R, G, B, A order, exactly as an 8-bit RGBA frame is laid out in
    /// memory.  Returns `None` when the byte count does not match the
    /// dimensions.
    pub fn from_raw(width: u32, height: u32, bytes: Vec<u8>) -> (r: Option<PixelGrid>)
        ensures
            match r {
                Option::Some(g) => {
                    &&& bytes@.len() == 4 * ((width as int) * (height as int))
                    &&& g.wf()
                    &&& g.width == width
                    &&& g.height == height
                    &&& forall|i: int|
                        0 <= i < (width as int) * (height as int) ==> g.pixels@[i] == (Rgba {
                            r: bytes@[4 * i],
                            g: bytes@[4 * i + 1],
                            b: bytes@[4 * i + 2],
                            a: bytes@[4 * i + 3],
                        })
                },
                Option::None => bytes@.len() != 4 * ((width as int) * (height as int)),
            },
    {
        let len = bytes.len();
        if len % 4 != 0 {
            return None;
        }
        let n_pixels = len / 4;
        proof {
            assert((width as int) * (height as int) <= u32::MAX * u32::MAX) by (nonlinear_arith)
                requires
                    0 <= (width as int) && (width as int) <= u32::MAX,
                    0 <= (height as int) && (height as int) <= u32::MAX,
            ;
        }
        let expected: u64 = (width as u64) * (height as u64);
        if (n_pixels as u64) != expected {
            return None;
        }
        let mut pixels: Vec<Rgba> = Vec::new();
        let mut i: usize = 0;
        while i < n_pixels
            invariant
                n_pixels == bytes@.len() / 4,
                4 * n_pixels == bytes@.len(),
                bytes@.len() <= usize::MAX,
                0 <= i <= n_pixels,
                pixels@.len() == i,
                forall|j: int|
                    0 <= j < i ==> pixels@[j] == (Rgba {
                        r: bytes@[4 * j],
                        g: bytes@[4 * j + 1],
                        b: bytes@[4 * j + 2],
                        a: bytes@[4 * j + 3],
                    }),
            decreases n_pixels - i,
        {
            let base: usize = 4 * i;
            let px = Rgba {
                r: bytes[base],
                g: bytes[base + 1],
                b: bytes[base + 2],
                a: bytes[base + 3],
            };
            pixels.push(px);
            i += 1;
        }
        let grid = PixelGrid { width, height, pixels };
        proof {
            assert(grid.pixels@.len() == (width as int) * (height as int));
            assert(grid.pixels@.len() == grid.width * grid.height);
        }
        Some(grid)
    }
}

} // verus!
