use vstd::prelude::*;

use crate::raster::{Pixel, Raster, TILE, lemma_cell_index};

verus! {

/// Number of pixels in a texture.
pub const TILE_PIXELS: usize = 256;

/// `c * f / 255` with truncating division.
pub open spec fn scaled(c: u8, f: u16) -> int {
    (c as int) * (f as int) / 255
}

/// A pixel with each colour channel scaled by `factor / 255`; alpha kept.
pub open spec fn tinted(p: Pixel, factor: (u16, u16, u16)) -> Pixel {
    Pixel {
        r: scaled(p.r, factor.0) as u8,
        g: scaled(p.g, factor.1) as u8,
        b: scaled(p.b, factor.2) as u8,
        a: p.a,
    }
}

/// Layering of one colour channel `c` with alpha `a` over an accumulated
/// channel value `acc`, with truncating division on both terms.
pub open spec fn over_channel(acc: int, c: int, a: int) -> int {
    acc * (255 - a) / 255 + c * a / 255
}

/// One step of the face fold: colour is layered by the face's alpha, while
/// alpha adds up, clamped at 255.
pub open spec fn stack_face(acc: Pixel, face: Pixel) -> Pixel {
    Pixel {
        r: over_channel(acc.r as int, face.r as int, face.a as int) as u8,
        g: over_channel(acc.g as int, face.g as int, face.a as int) as u8,
        b: over_channel(acc.b as int, face.b as int, face.a as int) as u8,
        a: if acc.a + face.a > 255 { 255u8 } else { (acc.a + face.a) as u8 },
    }
}

pub open spec fn clear_pixel() -> Pixel {
    Pixel { r: 0, g: 0, b: 0, a: 0 }
}

/// Pixel `i` of the fold of `faces`, bottom face first, from a clear pixel.
pub open spec fn stacked_pixel(faces: Seq<Raster>, i: int) -> Pixel
    decreases faces.len(),
{
    if faces.len() == 0 {
        clear_pixel()
    } else {
        stack_face(stacked_pixel(faces.drop_last(), i), faces.last().pixels@[i])
    }
}

/// The layering of a channel stays within 0..=255 and its products fit in 16 bits.
pub proof fn lemma_over_channel_bounds(acc: int, c: int, a: int)
    requires
        0 <= acc <= 255,
        0 <= c <= 255,
        0 <= a <= 255,
    ensures
        0 <= acc * (255 - a) <= 65025,
        0 <= c * a <= 65025,
        0 <= over_channel(acc, c, a) <= 255,
{
    assert(0 <= acc * (255 - a) <= 255 * (255 - a)) by (nonlinear_arith)
        requires
            0 <= acc <= 255,
            0 <= a <= 255,
    ;
    assert(0 <= c * a <= 255 * a) by (nonlinear_arith)
        requires
            0 <= c <= 255,
            0 <= a <= 255,
    ;
    assert(255 * (255 - a) <= 65025) by (nonlinear_arith)
        requires
            0 <= a <= 255,
    ;
    assert(255 * a <= 65025) by (nonlinear_arith)
        requires
            0 <= a <= 255,
    ;
    vstd::arithmetic::div_mod::lemma_div_is_ordered(acc * (255 - a), 255 * (255 - a), 255);
    vstd::arithmetic::div_mod::lemma_div_is_ordered(c * a, 255 * a, 255);
    vstd::arithmetic::div_mod::lemma_div_multiples_vanish(255 - a, 255);
    vstd::arithmetic::div_mod::lemma_div_multiples_vanish(a, 255);
    vstd::arithmetic::div_mod::lemma_div_pos_is_pos(acc * (255 - a), 255);
    vstd::arithmetic::div_mod::lemma_div_pos_is_pos(c * a, 255);
}

/// Executable layering of one channel.
pub(crate) fn over_channel_exec(acc: u8, c: u8, a: u8) -> (r: u8)
    ensures
        r == over_channel(acc as int, c as int, a as int),
{
    proof {
        lemma_over_channel_bounds(acc as int, c as int, a as int);
    }
    let lo: u32 = (acc as u32) * (255 - a as u32) / 255;
    let hi: u32 = (c as u32) * (a as u32) / 255;
    (lo + hi) as u8
}

fn stack_face_exec(acc: Pixel, face: Pixel) -> (r: Pixel)
    ensures
        r == stack_face(acc, face),
{
    let sum: u16 = acc.a as u16 + face.a as u16;
    Pixel {
        r: over_channel_exec(acc.r, face.r, face.a),
        g: over_channel_exec(acc.g, face.g, face.a),
        b: over_channel_exec(acc.b, face.b, face.a),
        a: if sum > 255 { 255u8 } else { sum as u8 },
    }
}


/// Every raster of `faces` is a 16 by 16 texture.
pub open spec fn all_textures(faces: Seq<Raster>) -> bool {
    forall|k: int| 0 <= k < faces.len() ==> (#[trigger] faces[k]).is_texture()
}

/// Composites 16 by 16 faces into one tile, bottom face first: colour is
/// layered by each face's alpha, alpha accumulates additively up to 255.
pub fn composite_block_faces(faces: &Vec<Raster>) -> (r: Raster)
    requires
        all_textures(faces@),
    ensures
        r.is_texture(),
        forall|i: int| 0 <= i < TILE_PIXELS ==> #[trigger] r.pixels@[i] == stacked_pixel(faces@, i),
{
    let mut pixels: Vec<Pixel> = Vec::with_capacity(TILE_PIXELS);
    let mut i: usize = 0;
    while i < TILE_PIXELS
        invariant
            i <= TILE_PIXELS,
            all_textures(faces@),
            pixels@.len() == i,
            forall|j: int| 0 <= j < i ==> #[trigger] pixels@[j] == stacked_pixel(faces@, j),
        decreases TILE_PIXELS - i,
    {
        let mut acc = Pixel { r: 0, g: 0, b: 0, a: 0 };
        let mut k: usize = 0;
        while k < faces.len()
            invariant
                k <= faces@.len(),
                i < TILE_PIXELS,
                all_textures(faces@),
                acc == stacked_pixel(faces@.take(k as int), i as int),
            decreases faces@.len() - k,
        {
            assert(faces@[k as int].is_texture());
            acc = stack_face_exec(acc, faces[k].pixels[i]);
            proof {
                let next = faces@.take(k + 1);
                assert(next.drop_last() =~= faces@.take(k as int));
                assert(next.last() == faces@[k as int]);
            }
            k = k + 1;
        }
        assert(faces@.take(faces@.len() as int) =~= faces@);
        pixels.push(acc);
        i = i + 1;
    }
    Raster { width: TILE, height: TILE, pixels }
}

/// Composites the three projected faces of a block in drawing order: left
/// face, then top face, then right face.
pub fn assemble_isometric_faces(left: Raster, top: Raster, right: Raster) -> (r: Raster)
    requires
        left.is_texture(),
        top.is_texture(),
        right.is_texture(),
    ensures
        r.is_texture(),
        forall|i: int|
            0 <= i < TILE_PIXELS ==> #[trigger] r.pixels@[i] == stacked_pixel(
                seq![left, top, right],
                i,
            ),
{
    let faces: Vec<Raster> = vec![left, top, right];
    assert(faces@ =~= seq![left, top, right]);
    composite_block_faces(&faces)
}

/// Scales the colour channels of every pixel of `source` by `factor / 255`
/// (truncating); alpha is kept.
pub fn tint(source: &Raster, factor: (u16, u16, u16)) -> (r: Raster)
    requires
        source.is_texture(),
        factor.0 <= 255,
        factor.1 <= 255,
        factor.2 <= 255,
    ensures
        r.is_texture(),
        r.pixels@ == source.pixels@.map_values(|p: Pixel| tinted(p, factor)),
{
    let mut pixels: Vec<Pixel> = Vec::with_capacity(TILE_PIXELS);
    let mut i: usize = 0;
    while i < TILE_PIXELS
        invariant
            i <= TILE_PIXELS,
            source.is_texture(),
            factor.0 <= 255,
            factor.1 <= 255,
            factor.2 <= 255,
            pixels@ == source.pixels@.take(i as int).map_values(|p: Pixel| tinted(p, factor)),
        decreases TILE_PIXELS - i,
    {
        let sp = source.pixels[i];
        proof {
            assert(0 <= (sp.r as int) * (factor.0 as int) <= 255 * 255) by (nonlinear_arith)
                requires sp.r <= 255, factor.0 <= 255;
            assert(0 <= (sp.g as int) * (factor.1 as int) <= 255 * 255) by (nonlinear_arith)
                requires sp.g <= 255, factor.1 <= 255;
            assert(0 <= (sp.b as int) * (factor.2 as int) <= 255 * 255) by (nonlinear_arith)
                requires sp.b <= 255, factor.2 <= 255;
        }
        let p = Pixel {
            r: ((sp.r as u32) * (factor.0 as u32) / 255) as u8,
            g: ((sp.g as u32) * (factor.1 as u32) / 255) as u8,
            b: ((sp.b as u32) * (factor.2 as u32) / 255) as u8,
            a: sp.a,
        };
        pixels.push(p);
        proof {
            assert(source.pixels@.take(i + 1) =~= source.pixels@.take(i as int).push(sp));
        }
        i = i + 1;
        assert(pixels@ =~= source.pixels@.take(i as int).map_values(|p: Pixel| tinted(p, factor)));
    }
    assert(source.pixels@.take(TILE_PIXELS as int) =~= source.pixels@);
    Raster { width: TILE, height: TILE, pixels }
}

/// The fixed foliage tint factor.
pub open spec fn biome_factor() -> (u16, u16, u16) {
    (100, 200, 50)
}

/// `tint` with the fixed foliage factor (100, 200, 50).
pub fn biome_tint(s: &Raster) -> (r: Raster)
    requires
        s.is_texture(),
    ensures
        r.is_texture(),
        r.pixels@ == s.pixels@.map_values(|p: Pixel| tinted(p, biome_factor())),
{
    tint(s, (100, 200, 50))
}

/// The top-left 16 by 16 region of `tex`.
pub fn crop16(tex: &Raster) -> (r: Raster)
    requires
        tex.wf(),
        tex.width >= TILE,
        tex.height >= TILE,
    ensures
        r.is_texture(),
        forall|x: int, y: int|
            0 <= x < TILE && 0 <= y < TILE ==> #[trigger] r.px(x, y) == tex.px(x, y),
{
    let mut pixels: Vec<Pixel> = Vec::with_capacity(TILE_PIXELS);
    let mut y: u32 = 0;
    while y < TILE
        invariant
            y <= TILE,
            tex.wf(),
            tex.width >= TILE,
            tex.height >= TILE,
            pixels@.len() == y * TILE,
            forall|i: int| 0 <= i < pixels@.len() ==> #[trigger] pixels@[i] == tex.px(i % 16, i / 16),
        decreases TILE - y,
    {
        let mut x: u32 = 0;
        while x < TILE
            invariant
                x <= TILE,
                y < TILE,
                tex.wf(),
                tex.width >= TILE,
                tex.height >= TILE,
                pixels@.len() == y * TILE + x,
                forall|i: int| 0 <= i < pixels@.len() ==> #[trigger] pixels@[i] == tex.px(i % 16, i / 16),
            decreases TILE - x,
        {
            let p = tex.get_pixel(x, y);
            proof {
                lemma_cell_index(x as int, y as int, 16, 16);
            }
            pixels.push(p);
            x = x + 1;
        }
        y = y + 1;
    }
    assert forall|x: int, y: int| 0 <= x < TILE && 0 <= y < TILE implies pixels@[y * 16 + x] == tex.px(x, y) by {
        lemma_cell_index(x, y, 16, 16);
    }
    Raster { width: TILE, height: TILE, pixels }
}

pub open spec fn opaque_black() -> Pixel {
    Pixel { r: 0, g: 0, b: 0, a: 255 }
}

/// The fallback tile: 16 by 16, every pixel opaque black.
pub fn transparent() -> (r: Raster)
    ensures
        r.is_texture(),
        r.pixels@ == Seq::new(TILE_PIXELS as nat, |i: int| opaque_black()),
{
    Raster::filled(TILE, TILE, Pixel { r: 0, g: 0, b: 0, a: 255 })
}


/// Compositing no faces yields a fully clear pixel everywhere.
pub proof fn lemma_composite_empty(i: int)
    ensures
        stacked_pixel(Seq::<Raster>::empty(), i) == clear_pixel(),
{
}

/// Compositing a single fully opaque face yields that face unchanged.
pub proof fn lemma_composite_single_opaque(face: Raster)
    requires
        face.is_texture(),
        forall|i: int| 0 <= i < TILE_PIXELS ==> (#[trigger] face.pixels@[i]).a == 255,
    ensures
        forall|i: int| 0 <= i < TILE_PIXELS ==> #[trigger] stacked_pixel(seq![face], i) == face.pixels@[i],
{
    assert forall|i: int| 0 <= i < TILE_PIXELS implies #[trigger] stacked_pixel(seq![face], i) == face.pixels@[i] by {
        let s = seq![face];
        assert(s.drop_last() =~= Seq::<Raster>::empty());
        assert(s.last() == face);
        let p = face.pixels@[i];
        vstd::arithmetic::div_mod::lemma_div_multiples_vanish(p.r as int, 255);
        vstd::arithmetic::div_mod::lemma_div_multiples_vanish(p.g as int, 255);
        vstd::arithmetic::div_mod::lemma_div_multiples_vanish(p.b as int, 255);
        assert(over_channel(0, p.r as int, 255) == p.r);
        assert(over_channel(0, p.g as int, 255) == p.g);
        assert(over_channel(0, p.b as int, 255) == p.b);
    }
}

/// The accumulated alpha is at least the alpha of every face.
pub proof fn lemma_stacked_alpha_dominates(faces: Seq<Raster>, i: int, k: int)
    requires
        0 <= k < faces.len(),
    ensures
        stacked_pixel(faces, i).a >= faces[k].pixels@[i].a,
    decreases faces.len(),
{
    if k < faces.len() - 1 {
        lemma_stacked_alpha_dominates(faces.drop_last(), i, k);
    }
}

/// Where some face is fully opaque at a pixel, the composite is fully
/// opaque there: faces that together cover the tile leave no transparent hole.
pub proof fn lemma_opaque_face_gives_opaque(faces: Seq<Raster>, i: int)
    requires
        exists|k: int| 0 <= k < faces.len() && (#[trigger] faces[k]).pixels@[i].a == 255,
    ensures
        stacked_pixel(faces, i).a == 255,
{
    let k = choose|k: int| 0 <= k < faces.len() && (#[trigger] faces[k]).pixels@[i].a == 255;
    lemma_stacked_alpha_dominates(faces, i, k);
}

/// Tinting an opaque white pixel yields exactly the tint factor, opaque.
pub proof fn lemma_tint_white(factor: (u16, u16, u16))
    requires
        factor.0 <= 255,
        factor.1 <= 255,
        factor.2 <= 255,
    ensures
        tinted(Pixel { r: 255, g: 255, b: 255, a: 255 }, factor) == (Pixel {
            r: factor.0 as u8,
            g: factor.1 as u8,
            b: factor.2 as u8,
            a: 255,
        }),
{
    vstd::arithmetic::div_mod::lemma_div_multiples_vanish(factor.0 as int, 255);
    vstd::arithmetic::div_mod::lemma_div_multiples_vanish(factor.1 as int, 255);
    vstd::arithmetic::div_mod::lemma_div_multiples_vanish(factor.2 as int, 255);
}

} // verus!
