use vstd::prelude::*;

use std::collections::HashMap;

use crate::raster::{Pixel, Raster, lemma_cell_index};
use crate::texture::{over_channel, over_channel_exec};

verus! {

/// Alpha of a pixel with alpha `sa` drawn over one with alpha `da`.
pub open spec fn over_alpha(da: int, sa: int) -> int {
    255 - (255 - da) * (255 - sa) / 255
}

/// Non-premultiplied "over" of `src` onto `dst`, truncating each division.
pub open spec fn over_pixel(dst: Pixel, src: Pixel) -> Pixel {
    Pixel {
        r: over_channel(dst.r as int, src.r as int, src.a as int) as u8,
        g: over_channel(dst.g as int, src.g as int, src.a as int) as u8,
        b: over_channel(dst.b as int, src.b as int, src.a as int) as u8,
        a: over_alpha(dst.a as int, src.a as int) as u8,
    }
}

/// Whether cell `i` of a raster `width` wide lies under `src` placed at `(ox, oy)`.
pub open spec fn under_footprint(i: int, width: int, src: Raster, ox: int, oy: int) -> bool {
    &&& ox <= i % width < ox + src.width
    &&& oy <= i / width < oy + src.height
}

/// The pixels of a raster `width` wide after drawing `src` over it at `(ox, oy)`.
pub open spec fn blit_pixels(dst: Seq<Pixel>, width: int, src: Raster, ox: int, oy: int) -> Seq<
    Pixel,
> {
    Seq::new(
        dst.len(),
        |i: int|
            if under_footprint(i, width, src, ox, oy) {
                over_pixel(dst[i], src.px(i % width - ox, i / width - oy))
            } else {
                dst[i]
            },
    )
}

proof fn lemma_over_alpha_bounds(da: int, sa: int)
    requires
        0 <= da <= 255,
        0 <= sa <= 255,
    ensures
        0 <= (255 - da) * (255 - sa) <= 65025,
        0 <= over_alpha(da, sa) <= 255,
{
    assert(0 <= (255 - da) * (255 - sa) <= (255 - da) * 255) by (nonlinear_arith)
        requires
            0 <= da <= 255,
            0 <= sa <= 255,
    ;
    assert((255 - da) * 255 <= 65025) by (nonlinear_arith)
        requires
            0 <= da <= 255,
    ;
    vstd::arithmetic::div_mod::lemma_div_is_ordered((255 - da) * (255 - sa), (255 - da) * 255, 255);
    vstd::arithmetic::div_mod::lemma_div_multiples_vanish(255 - da, 255);
    vstd::arithmetic::div_mod::lemma_div_pos_is_pos((255 - da) * (255 - sa), 255);
}

fn over_pixel_exec(dst: Pixel, src: Pixel) -> (r: Pixel)
    ensures
        r == over_pixel(dst, src),
{
    proof {
        lemma_over_alpha_bounds(dst.a as int, src.a as int);
    }
    let keep: u32 = (255 - dst.a as u32) * (255 - src.a as u32) / 255;
    Pixel {
        r: over_channel_exec(dst.r, src.r, src.a),
        g: over_channel_exec(dst.g, src.g, src.a),
        b: over_channel_exec(dst.b, src.b, src.a),
        a: (255 - keep) as u8,
    }
}

/// Pixels of `orig` with the cells under `src` in rows before `sy`, and in
/// row `sy` before column `sx`, already drawn over.
pub open spec fn blit_partial(
    orig: Seq<Pixel>,
    width: int,
    src: Raster,
    ox: int,
    oy: int,
    sx: int,
    sy: int,
) -> Seq<Pixel> {
    Seq::new(
        orig.len(),
        |i: int|
            if under_footprint(i, width, src, ox, oy) && (i / width < oy + sy || (i / width == oy
                + sy && i % width < ox + sx)) {
                over_pixel(orig[i], src.px(i % width - ox, i / width - oy))
            } else {
                orig[i]
            },
    )
}

/// Draws `source` over `target` with its top-left corner at `offset`.
pub fn blit(target: &mut Raster, source: &Raster, offset: (u32, u32))
    requires
        old(target).wf(),
        source.wf(),
        offset.0 + source.width <= old(target).width,
        offset.1 + source.height <= old(target).height,
    ensures
        final(target).width == old(target).width,
        final(target).height == old(target).height,
        final(target).wf(),
        final(target).pixels@ == blit_pixels(
            old(target).pixels@,
            old(target).width as int,
            *source,
            offset.0 as int,
            offset.1 as int,
        ),
{
    let ghost orig = target.pixels@;
    let w = target.width;
    let h = target.height;
    let (ox, oy) = offset;
    let mut sy: u32 = 0;
    while sy < source.height
        invariant
            source.wf(),
            target.width == w,
            target.height == h,
            orig.len() == w * h,
            ox + source.width <= w,
            oy + source.height <= h,
            sy <= source.height,
            target.pixels@ == blit_partial(orig, w as int, *source, ox as int, oy as int, 0, sy as int),
        decreases source.height - sy,
    {
        let mut sx: u32 = 0;
        while sx < source.width
            invariant
                source.wf(),
                target.width == w,
                target.height == h,
                orig.len() == w * h,
                ox + source.width <= w,
                oy + source.height <= h,
                sy < source.height,
                sx <= source.width,
                target.pixels@ == blit_partial(orig, w as int, *source, ox as int, oy as int, sx as int, sy as int),
            decreases source.width - sx,
        {
            let len = target.pixels.len();
            let tx = ox + sx;
            let ty = oy + sy;
            proof {
                lemma_cell_index(tx as int, ty as int, w as int, h as int);
                assert(0 <= (ty as int) * (w as int) <= (ty as int) * (w as int) + tx);
            }
            let idx: usize = (ty as usize) * (w as usize) + (tx as usize);
            let sp = source.get_pixel(sx, sy);
            let dp = target.pixels[idx];
            let np = over_pixel_exec(dp, sp);
            target.pixels.set(idx, np);
            proof {
                let next = blit_partial(orig, w as int, *source, ox as int, oy as int, sx + 1, sy as int);
                assert forall|i: int| 0 <= i < orig.len() implies #[trigger] target.pixels@[i] == next[i] by {
                    if i != idx {
                        vstd::arithmetic::div_mod::lemma_fundamental_div_mod(i, w as int);
                        if i / (w as int) == ty && i % (w as int) == tx {
                            assert(i == (ty as int) * (w as int) + tx) by (nonlinear_arith)
                                requires
                                    i == (w as int) * (i / (w as int)) + i % (w as int),
                                    i / (w as int) == ty,
                                    i % (w as int) == tx,
                            ;
                        }
                    }
                }
                assert(target.pixels@ =~= next);
            }
            sx = sx + 1;
        }
        assert(blit_partial(orig, w as int, *source, ox as int, oy as int, source.width as int, sy as int)
            =~= blit_partial(orig, w as int, *source, ox as int, oy as int, 0, sy + 1));
        sy = sy + 1;
    }
    assert(target.pixels@ =~= blit_pixels(orig, w as int, *source, ox as int, oy as int));
}


/// Drawing a fully opaque raster replaces the covered pixels by its own.
pub proof fn lemma_blit_opaque_overwrites(dst: Raster, src: Raster, ox: int, oy: int)
    requires
        dst.wf(),
        src.wf(),
        0 <= ox,
        0 <= oy,
        ox + src.width <= dst.width,
        oy + src.height <= dst.height,
        forall|x: int, y: int|
            0 <= x < src.width && 0 <= y < src.height ==> (#[trigger] src.px(x, y)).a == 255,
    ensures
        forall|x: int, y: int|
            0 <= x < src.width && 0 <= y < src.height ==> #[trigger] blit_pixels(
                dst.pixels@,
                dst.width as int,
                src,
                ox,
                oy,
            )[(oy + y) * dst.width + ox + x] == src.px(x, y),
{
    assert forall|x: int, y: int| 0 <= x < src.width && 0 <= y < src.height implies #[trigger] blit_pixels(
        dst.pixels@,
        dst.width as int,
        src,
        ox,
        oy,
    )[(oy + y) * dst.width + ox + x] == src.px(x, y) by {
        lemma_cell_index(ox + x, oy + y, dst.width as int, dst.height as int);
        let i = (oy + y) * dst.width + ox + x;
        assert(i == (oy + y) * dst.width + (ox + x));
        let s = src.px(x, y);
        let d = dst.pixels@[i];
        vstd::arithmetic::div_mod::lemma_div_multiples_vanish(s.r as int, 255);
        vstd::arithmetic::div_mod::lemma_div_multiples_vanish(s.g as int, 255);
        vstd::arithmetic::div_mod::lemma_div_multiples_vanish(s.b as int, 255);
        assert(over_channel(d.r as int, s.r as int, 255) == s.r);
        assert(over_channel(d.g as int, s.g as int, 255) == s.g);
        assert(over_channel(d.b as int, s.b as int, 255) == s.b);
        assert(over_alpha(d.a as int, 255) == 255);
    }
}

/// Drawing a fully transparent raster leaves every pixel unchanged.
pub proof fn lemma_blit_clear_is_identity(dst: Raster, src: Raster, ox: int, oy: int)
    requires
        dst.wf(),
        src.wf(),
        0 <= ox,
        0 <= oy,
        ox + src.width <= dst.width,
        oy + src.height <= dst.height,
        forall|x: int, y: int|
            0 <= x < src.width && 0 <= y < src.height ==> (#[trigger] src.px(x, y)).a == 0,
    ensures
        blit_pixels(dst.pixels@, dst.width as int, src, ox, oy) == dst.pixels@,
{
    let w = dst.width as int;
    let out = blit_pixels(dst.pixels@, w, src, ox, oy);
    assert forall|i: int| 0 <= i < dst.pixels@.len() implies #[trigger] out[i] == dst.pixels@[i] by {
        if under_footprint(i, w, src, ox, oy) {
            let s = src.px(i % w - ox, i / w - oy);
            let d = dst.pixels@[i];
            assert(s.a == 0);
            vstd::arithmetic::div_mod::lemma_div_multiples_vanish(d.r as int, 255);
            vstd::arithmetic::div_mod::lemma_div_multiples_vanish(d.g as int, 255);
            vstd::arithmetic::div_mod::lemma_div_multiples_vanish(d.b as int, 255);
            vstd::arithmetic::div_mod::lemma_div_multiples_vanish(255 - d.a as int, 255);
            assert(over_channel(d.r as int, s.r as int, 0) == d.r);
            assert(over_channel(d.g as int, s.g as int, 0) == d.g);
            assert(over_channel(d.b as int, s.b as int, 0) == d.b);
            assert(over_alpha(d.a as int, 0) == d.a);
        }
    }
    assert(out =~= dst.pixels@);
}

/// Horizontal extent of a segment, in blocks, along x and along z.
pub const SEG_SIZE: u32 = 128;

/// Vertical extent of a segment, in blocks.
pub const CHUNK_HEIGHT: u32 = 256;

/// Width of the rendered canvas in pixels.
pub const CANVAS_WIDTH: u32 = 16 * SEG_SIZE;

/// Height of the rendered canvas in pixels.
pub const CANVAS_HEIGHT: u32 = 16 * (SEG_SIZE + CHUNK_HEIGHT) / 2;

/// Canvas column of the tile of voxel `(x, y, z)`: origin 1016, x-step -8,
/// y-step 0, z-step +8.
pub open spec fn iso_x(x: int, y: int, z: int) -> int {
    1016 - 8 * x + 0 * y + 8 * z
}

/// Canvas row of the tile of voxel `(x, y, z)`: origin 2040, x-step +4,
/// y-step -8, z-step +4.
pub open spec fn iso_y(x: int, y: int, z: int) -> int {
    2040 + 4 * x - 8 * y + 4 * z
}

/// Whether a voxel position lies inside a segment.
pub open spec fn in_segment(x: int, y: int, z: int) -> bool {
    &&& 0 <= x < SEG_SIZE
    &&& 0 <= y < CHUNK_HEIGHT
    &&& 0 <= z < SEG_SIZE
}

/// Top-left canvas pixel of the tile of voxel `(x, y, z)`.
pub fn isometric_coord_mapping(x: i32, y: i32, z: i32) -> (r: (u32, u32))
    requires
        in_segment(x as int, y as int, z as int),
    ensures
        r.0 == iso_x(x as int, y as int, z as int),
        r.1 == iso_y(x as int, y as int, z as int),
        r.0 + 16 <= CANVAS_WIDTH,
        r.1 + 16 <= CANVAS_HEIGHT,
{
    let base_x: i32 = 1016;
    let base_y: i32 = 2040;
    let px: i32 = base_x - 8 * x + 0 * y + 8 * z;
    let py: i32 = base_y + 4 * x - 8 * y + 4 * z;
    (px as u32, py as u32)
}

/// The mapping is linear with integer steps: one step along x moves the tile
/// by (-8, +4), along z by (+8, +4), and along y by (0, -8).
pub proof fn lemma_mapping_steps(x: int, y: int, z: int)
    ensures
        iso_x(x + 1, y, z) - iso_x(x, y, z) == -8,
        iso_y(x + 1, y, z) - iso_y(x, y, z) == 4,
        iso_x(x, y, z + 1) - iso_x(x, y, z) == 8,
        iso_y(x, y, z + 1) - iso_y(x, y, z) == 4,
        iso_x(x, y + 1, z) - iso_x(x, y, z) == 0,
        iso_y(x, y + 1, z) - iso_y(x, y, z) == -8,
{
}

/// One voxel of a segment: its position and the palette id of its block.
#[derive(Clone, Copy, Debug, PartialEq, Eq, Structural)]
pub struct Voxel {
    pub x: u32,
    pub y: u32,
    pub z: u32,
    pub block_id: u16,
}

/// Why a render was refused.
#[derive(Clone, Copy, Debug, PartialEq, Eq, Structural)]
pub enum RenderError {
    /// A voxel's block id has no tile in the library.
    UnknownBlock(u16),
    /// A voxel's position lies outside the segment.
    OutOfSegment(u32, u32, u32),
}

/// The finished isometric tile of each block id of one render.
pub struct TextureLibrary {
    tiles: HashMap<u16, Raster>,
}

impl View for TextureLibrary {
    type V = Map<u16, Raster>;

    closed spec fn view(&self) -> Map<u16, Raster> {
        self.tiles@
    }
}

/// Every tile of the map is a 16 by 16 texture.
pub open spec fn tiles_wf(tiles: Map<u16, Raster>) -> bool {
    forall|id: u16| #[trigger] tiles.contains_key(id) ==> tiles[id].is_texture()
}

impl TextureLibrary {
    pub open spec fn wf(&self) -> bool {
        tiles_wf(self@)
    }

    /// A library with no tiles.
    pub fn new() -> (r: TextureLibrary)
        ensures
            r@ == Map::<u16, Raster>::empty(),
            r.wf(),
    {
        TextureLibrary { tiles: HashMap::new() }
    }

    /// Stores `tile` as the tile of `id`, replacing any earlier one.
    pub fn insert(&mut self, id: u16, tile: Raster)
        requires
            old(self).wf(),
            tile.is_texture(),
        ensures
            final(self)@ == old(self)@.insert(id, tile),
            final(self).wf(),
    {
        broadcast use vstd::std_specs::hash::group_hash_axioms;

        self.tiles.insert(id, tile);
    }

    /// The tile of `id`, if there is one.
    pub fn get(&self, id: u16) -> (r: Option<&Raster>)
        ensures
            r matches Some(t) ==> self@.contains_key(id) && *t == self@[id],
            r is None ==> !self@.contains_key(id),
    {
        broadcast use vstd::std_specs::hash::group_hash_axioms;

        self.tiles.get(&id)
    }

    /// Number of block ids with a tile.
    pub fn len(&self) -> (r: usize)
        ensures
            r == self@.len(),
    {
        broadcast use vstd::std_specs::hash::group_hash_axioms;

        self.tiles.len()
    }
}

/// The error that voxel `v` raises, if any.
pub open spec fn voxel_error(tiles: Map<u16, Raster>, v: Voxel) -> Option<RenderError> {
    if !in_segment(v.x as int, v.y as int, v.z as int) {
        Some(RenderError::OutOfSegment(v.x, v.y, v.z))
    } else if !tiles.contains_key(v.block_id) {
        Some(RenderError::UnknownBlock(v.block_id))
    } else {
        None
    }
}

/// The error of the first voxel of `voxels` that raises one.
pub open spec fn first_error(tiles: Map<u16, Raster>, voxels: Seq<Voxel>) -> Option<RenderError>
    decreases voxels.len(),
{
    if voxels.len() == 0 {
        None
    } else {
        match first_error(tiles, voxels.drop_last()) {
            Some(e) => Some(e),
            None => voxel_error(tiles, voxels.last()),
        }
    }
}

/// The empty canvas: every pixel zero, fully transparent.
pub open spec fn blank_canvas() -> Seq<Pixel> {
    Seq::new((CANVAS_WIDTH * CANVAS_HEIGHT) as nat, |i: int| Pixel { r: 0, g: 0, b: 0, a: 0 })
}

/// The canvas after drawing the tiles of `voxels` in sequence order onto the
/// empty canvas, each at the mapped position of its voxel.
pub open spec fn rendered_pixels(tiles: Map<u16, Raster>, voxels: Seq<Voxel>) -> Seq<Pixel>
    decreases voxels.len(),
{
    if voxels.len() == 0 {
        blank_canvas()
    } else {
        let v = voxels.last();
        blit_pixels(
            rendered_pixels(tiles, voxels.drop_last()),
            CANVAS_WIDTH as int,
            tiles[v.block_id],
            iso_x(v.x as int, v.y as int, v.z as int),
            iso_y(v.x as int, v.y as int, v.z as int),
        )
    }
}

/// What rendering `voxels` with `tiles` yields: the first voxel error, or the
/// pixels of the finished canvas.
pub open spec fn render_outcome(tiles: Map<u16, Raster>, voxels: Seq<Voxel>) -> Result<
    Seq<Pixel>,
    RenderError,
> {
    match first_error(tiles, voxels) {
        Some(e) => Err(e),
        None => Ok(rendered_pixels(tiles, voxels)),
    }
}

/// Rendering depends on nothing but the tiles and the voxel sequence: equal
/// inputs give identical outcomes, pixel for pixel.
pub proof fn lemma_render_deterministic(
    a: &TextureLibrary,
    b: &TextureLibrary,
    va: Seq<Voxel>,
    vb: Seq<Voxel>,
)
    requires
        a@ == b@,
        va == vb,
    ensures
        render_outcome(a@, va) == render_outcome(b@, vb),
{
}

/// A render of a single voxel leaves every pixel outside that voxel's tile
/// footprint blank.
pub proof fn lemma_single_voxel_footprint(tiles: Map<u16, Raster>, v: Voxel, i: int)
    requires
        tiles.contains_key(v.block_id),
        0 <= i < CANVAS_WIDTH * CANVAS_HEIGHT,
        !under_footprint(
            i,
            CANVAS_WIDTH as int,
            tiles[v.block_id],
            iso_x(v.x as int, v.y as int, v.z as int),
            iso_y(v.x as int, v.y as int, v.z as int),
        ),
    ensures
        rendered_pixels(tiles, seq![v])[i] == (Pixel { r: 0, g: 0, b: 0, a: 0 }),
{
    let s = seq![v];
    assert(s.drop_last() =~= Seq::<Voxel>::empty());
    assert(s.last() == v);
    assert(rendered_pixels(tiles, s.drop_last()) == blank_canvas());
}

proof fn lemma_first_error_extends(tiles: Map<u16, Raster>, voxels: Seq<Voxel>, k: int)
    requires
        0 <= k <= voxels.len(),
        first_error(tiles, voxels.take(k)) is Some,
    ensures
        first_error(tiles, voxels) == first_error(tiles, voxels.take(k)),
    decreases voxels.len(),
{
    if k < voxels.len() {
        assert(voxels.drop_last().take(k) =~= voxels.take(k));
        lemma_first_error_extends(tiles, voxels.drop_last(), k);
    } else {
        assert(voxels.take(k) =~= voxels);
    }
}

/// Draws the tile of every voxel onto an empty canvas, in the given order
/// (farthest first), each at its mapped position; fails on the first voxel
/// outside the segment or with a block id that has no tile.
pub fn render_voxels(library: &TextureLibrary, voxels: &Vec<Voxel>) -> (r: Result<Raster, RenderError>)
    requires
        library.wf(),
    ensures
        match r {
            Ok(c) => {
                &&& c.width == CANVAS_WIDTH
                &&& c.height == CANVAS_HEIGHT
                &&& c.wf()
                &&& render_outcome(library@, voxels@) == Ok::<Seq<Pixel>, RenderError>(c.pixels@)
            },
            Err(e) => render_outcome(library@, voxels@) == Err::<Seq<Pixel>, RenderError>(e),
        },
{
    let mut canvas = Raster::filled(CANVAS_WIDTH, CANVAS_HEIGHT, Pixel { r: 0, g: 0, b: 0, a: 0 });
    assert(canvas.pixels@ =~= blank_canvas());
    let mut k: usize = 0;
    while k < voxels.len()
        invariant
            library.wf(),
            k <= voxels@.len(),
            canvas.width == CANVAS_WIDTH,
            canvas.height == CANVAS_HEIGHT,
            canvas.wf(),
            first_error(library@, voxels@.take(k as int)) is None,
            canvas.pixels@ == rendered_pixels(library@, voxels@.take(k as int)),
        decreases voxels@.len() - k,
    {
        let v = voxels[k];
        proof {
            let next = voxels@.take(k + 1);
            assert(next.drop_last() =~= voxels@.take(k as int));
            assert(next.last() == v);
        }
        if !(v.x < SEG_SIZE && v.y < CHUNK_HEIGHT && v.z < SEG_SIZE) {
            proof {
                lemma_first_error_extends(library@, voxels@, k + 1);
            }
            return Err(RenderError::OutOfSegment(v.x, v.y, v.z));
        }
        match library.get(v.block_id) {
            None => {
                proof {
                    lemma_first_error_extends(library@, voxels@, k + 1);
                }
                return Err(RenderError::UnknownBlock(v.block_id));
            },
            Some(tile) => {
                let offset = isometric_coord_mapping(v.x as i32, v.y as i32, v.z as i32);
                blit(&mut canvas, tile, offset);
            },
        }
        k = k + 1;
    }
    assert(voxels@.take(voxels@.len() as int) =~= voxels@);
    Ok(canvas)
}

} // verus!
