use vstd::prelude::*;

verus! {

/// One non-premultiplied RGBA pixel with 8-bit channels.
#[derive(Clone, Copy, Debug, PartialEq, Eq, Structural)]
pub struct Pixel {
    pub r: u8,
    pub g: u8,
    pub b: u8,
    pub a: u8,
}

impl Pixel {
    pub fn new(r: u8, g: u8, b: u8, a: u8) -> (p: Pixel)
        ensures
            p == (Pixel { r, g, b, a }),
    {
        Pixel { r, g, b, a }
    }
}

/// Side length of a block texture and of an isometric tile.
pub const TILE: u32 = 16;

/// A row-major raster of pixels: pixel `(x, y)` is `pixels[y * width + x]`.
#[derive(Clone, Debug)]
pub struct Raster {
    pub width: u32,
    pub height: u32,
    pub pixels: Vec<Pixel>,
}

/// `y * w + x` addresses a cell of a `w` by `h` grid.
pub proof fn lemma_cell_index(x: int, y: int, w: int, h: int)
    requires
        0 <= x < w,
        0 <= y < h,
    ensures
        0 <= y * w + x < w * h,
        (y * w + x) / w == y,
        (y * w + x) % w == x,
{
    assert(0 <= y * w + x < w * h) by (nonlinear_arith)
        requires
            0 <= x < w,
            0 <= y < h,
    ;
    vstd::arithmetic::div_mod::lemma_fundamental_div_mod_converse(y * w + x, w, y, x);
}

impl Raster {
    /// The pixel buffer holds exactly `width * height` pixels.
    pub open spec fn wf(&self) -> bool {
        self.pixels@.len() == self.width * self.height
    }

    /// A well-formed 16 by 16 raster.
    pub open spec fn is_texture(&self) -> bool {
        &&& self.width == TILE
        &&& self.height == TILE
        &&& self.wf()
    }

    pub open spec fn px(&self, x: int, y: int) -> Pixel {
        self.pixels@[y * self.width + x]
    }

    /// A `width` by `height` raster with every pixel equal to `p`.
    pub fn filled(width: u32, height: u32, p: Pixel) -> (r: Raster)
        requires
            width * height <= usize::MAX,
        ensures
            r.width == width,
            r.height == height,
            r.wf(),
            r.pixels@ == Seq::new((width * height) as nat, |i: int| p),
    {
        let n: usize = (width as usize) * (height as usize);
        let mut pixels: Vec<Pixel> = Vec::with_capacity(n);
        let mut i: usize = 0;
        while i < n
            invariant
                i <= n,
                n == width * height,
                pixels@ == Seq::new(i as nat, |j: int| p),
            decreases n - i,
        {
            pixels.push(p);
            i = i + 1;
            assert(pixels@ =~= Seq::new(i as nat, |j: int| p));
        }
        Raster { width, height, pixels }
    }

    /// Builds a raster from row-major pixels; `None` when the count does not
    /// match the dimensions.
    pub fn from_pixels(width: u32, height: u32, pixels: Vec<Pixel>) -> (r: Option<Raster>)
        ensures
            r is Some <==> pixels@.len() == width * height,
            r matches Some(ras) ==> ras.width == width && ras.height == height
                && ras.pixels@ == pixels@,
    {
        proof {
            assert((width as int) * (height as int) <= u64::MAX) by (nonlinear_arith)
                requires
                    width <= u32::MAX,
                    height <= u32::MAX,
            ;
        }
        let n: u64 = (width as u64) * (height as u64);
        if pixels.len() as u64 == n {
            Some(Raster { width, height, pixels })
        } else {
            None
        }
    }

    /// The pixel at column `x`, row `y`.
    pub fn get_pixel(&self, x: u32, y: u32) -> (p: Pixel)
        requires
            self.wf(),
            x < self.width,
            y < self.height,
        ensures
            p == self.px(x as int, y as int),
    {
        let len = self.pixels.len();
        proof {
            lemma_cell_index(x as int, y as int, self.width as int, self.height as int);
            assert(0 <= (y as int) * (self.width as int) <= (y as int) * (self.width as int) + x);
        }
        self.pixels[(y as usize) * (self.width as usize) + (x as usize)]
    }
}

} // verus!
