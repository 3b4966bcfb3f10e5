use isorender::compositor::{
    blit, isometric_coord_mapping, render_voxels, RenderError, TextureLibrary, Voxel,
    CANVAS_HEIGHT, CANVAS_WIDTH,
};
use isorender::raster::{Pixel, Raster};
use isorender::texture::{
    assemble_isometric_faces, biome_tint, composite_block_faces, crop16, tint, transparent,
};

fn uniform(w: u32, h: u32, p: Pixel) -> Raster {
    Raster::filled(w, h, p)
}

fn px(r: u8, g: u8, b: u8, a: u8) -> Pixel {
    Pixel::new(r, g, b, a)
}

fn library_with(id: u16, tile: Raster) -> TextureLibrary {
    let mut lib = TextureLibrary::new();
    lib.insert(id, tile);
    lib
}

fn voxel(x: u32, y: u32, z: u32, block_id: u16) -> Voxel {
    Voxel { x, y, z, block_id }
}

#[test]
fn blit_opaque_source_overwrites_footprint() {
    let mut dst = uniform(40, 30, px(9, 8, 7, 60));
    let mut src = uniform(16, 16, px(1, 2, 3, 255));
    src.pixels[17] = px(200, 100, 50, 255);
    let before = dst.clone();
    blit(&mut dst, &src, (5, 7));
    for y in 0..30u32 {
        for x in 0..40u32 {
            let inside = (5..21).contains(&x) && (7..23).contains(&y);
            if inside {
                assert_eq!(dst.get_pixel(x, y), src.get_pixel(x - 5, y - 7));
            } else {
                assert_eq!(dst.get_pixel(x, y), before.get_pixel(x, y));
            }
        }
    }
}

#[test]
fn blit_clear_source_is_identity() {
    let mut dst = uniform(20, 20, px(9, 8, 7, 60));
    dst.pixels[3] = px(250, 1, 128, 255);
    let src = uniform(16, 16, px(255, 255, 255, 0));
    let before = dst.clone();
    blit(&mut dst, &src, (2, 3));
    assert_eq!(dst.pixels, before.pixels);
}

#[test]
fn blit_blends_with_truncating_division() {
    let mut dst = uniform(16, 16, px(200, 100, 50, 100));
    let src = uniform(16, 16, px(10, 20, 30, 128));
    blit(&mut dst, &src, (0, 0));
    assert_eq!(dst.get_pixel(4, 9), px(104, 59, 39, 178));
}

#[test]
fn composite_of_no_faces_is_clear() {
    let r = composite_block_faces(&vec![]);
    assert_eq!(r.width, 16);
    assert_eq!(r.height, 16);
    assert_eq!(r.pixels.len(), 256);
    assert!(r.pixels.iter().all(|p| *p == px(0, 0, 0, 0)));
}

#[test]
fn composite_of_one_opaque_face_is_that_face() {
    let mut a = uniform(16, 16, px(10, 20, 30, 255));
    a.pixels[100] = px(255, 0, 77, 255);
    let r = composite_block_faces(&vec![a.clone()]);
    assert_eq!(r.pixels, a.pixels);
}

#[test]
fn composite_layers_colour_and_adds_alpha() {
    let f1 = uniform(16, 16, px(100, 50, 200, 100));
    let f2 = uniform(16, 16, px(10, 20, 30, 200));
    let r = composite_block_faces(&vec![f1, f2]);
    assert_eq!(r.get_pixel(0, 0), px(15, 19, 39, 255));
}

#[test]
fn composite_alpha_is_additive_not_stacked() {
    let f = uniform(16, 16, px(0, 0, 0, 100));
    let r = composite_block_faces(&vec![f.clone(), f]);
    assert_eq!(r.get_pixel(3, 3).a, 200);
}

#[test]
fn covering_faces_give_an_opaque_tile() {
    // Left half opaque on one face, right half on another, nothing on the third.
    let mut left = uniform(16, 16, px(0, 0, 0, 0));
    let mut right = uniform(16, 16, px(0, 0, 0, 0));
    let top = uniform(16, 16, px(90, 90, 90, 40));
    for y in 0..16usize {
        for x in 0..16usize {
            if x < 8 {
                left.pixels[y * 16 + x] = px(120, 60, 30, 255);
            } else {
                right.pixels[y * 16 + x] = px(30, 60, 120, 255);
            }
        }
    }
    let r = assemble_isometric_faces(left, top, right);
    assert!(r.pixels.iter().all(|p| p.a == 255));
}

#[test]
fn assembled_faces_follow_left_top_right_order() {
    let left = uniform(16, 16, px(10, 10, 10, 255));
    let top = uniform(16, 16, px(0, 0, 0, 0));
    let right = uniform(16, 16, px(200, 200, 200, 255));
    let r = assemble_isometric_faces(left, top, right);
    assert_eq!(r.get_pixel(5, 5), px(200, 200, 200, 255));
}

#[test]
fn tint_of_opaque_white_gives_the_factor() {
    let white = uniform(16, 16, px(255, 255, 255, 255));
    let r = tint(&white, (100, 200, 50));
    assert!(r.pixels.iter().all(|p| *p == px(100, 200, 50, 255)));
    let b = biome_tint(&white);
    assert_eq!(b.pixels, r.pixels);
}

#[test]
fn tint_truncates_and_keeps_alpha() {
    let s = uniform(16, 16, px(200, 10, 255, 9));
    let r = tint(&s, (100, 200, 50));
    assert_eq!(r.get_pixel(15, 15), px(78, 7, 50, 9));
}

#[test]
fn crop16_takes_the_top_left_square() {
    let mut tall = uniform(16, 32, px(1, 1, 1, 255));
    for y in 16..32usize {
        for x in 0..16usize {
            tall.pixels[y * 16 + x] = px(9, 9, 9, 9);
        }
    }
    tall.pixels[5 * 16 + 3] = px(7, 6, 5, 4);
    let r = crop16(&tall);
    assert_eq!(r.width, 16);
    assert_eq!(r.height, 16);
    assert_eq!(r.pixels.len(), 256);
    assert_eq!(r.get_pixel(3, 5), px(7, 6, 5, 4));
    assert!(r.pixels.iter().all(|p| *p != px(9, 9, 9, 9)));
}

#[test]
fn fallback_tile_is_opaque_black() {
    let r = transparent();
    assert_eq!(r.pixels.len(), 256);
    assert!(r.pixels.iter().all(|p| *p == px(0, 0, 0, 255)));
}

#[test]
fn from_pixels_checks_the_count() {
    assert!(Raster::from_pixels(2, 3, vec![px(0, 0, 0, 0); 6]).is_some());
    assert!(Raster::from_pixels(2, 3, vec![px(0, 0, 0, 0); 5]).is_none());
}

#[test]
fn mapping_origin_and_steps() {
    assert_eq!(isometric_coord_mapping(0, 0, 0), (1016, 2040));
    let (bx, by) = isometric_coord_mapping(5, 7, 9);
    let (xx, xy) = isometric_coord_mapping(6, 7, 9);
    let (zx, zy) = isometric_coord_mapping(5, 7, 10);
    let (yx, yy) = isometric_coord_mapping(5, 8, 9);
    assert_eq!((xx as i64 - bx as i64, xy as i64 - by as i64), (-8, 4));
    assert_eq!((zx as i64 - bx as i64, zy as i64 - by as i64), (8, 4));
    assert_eq!((yx as i64 - bx as i64, yy as i64 - by as i64), (0, -8));
}

#[test]
fn mapping_extremes_stay_on_canvas() {
    assert_eq!(isometric_coord_mapping(0, 255, 0), (1016, 0));
    assert_eq!(isometric_coord_mapping(127, 255, 0), (0, 508));
    assert_eq!(isometric_coord_mapping(0, 0, 127), (2032, 2548));
    assert_eq!(isometric_coord_mapping(127, 0, 127), (1016, 3056));
    assert_eq!(CANVAS_WIDTH, 2048);
    assert_eq!(CANVAS_HEIGHT, 3072);
}

#[test]
fn library_stores_and_replaces_tiles() {
    let mut lib = TextureLibrary::new();
    assert_eq!(lib.len(), 0);
    assert!(lib.get(1).is_none());
    lib.insert(1, transparent());
    lib.insert(2, uniform(16, 16, px(5, 5, 5, 5)));
    lib.insert(1, uniform(16, 16, px(1, 2, 3, 4)));
    assert_eq!(lib.len(), 2);
    assert_eq!(lib.get(1).unwrap().get_pixel(0, 0), px(1, 2, 3, 4));
    assert!(lib.get(3).is_none());
}

#[test]
fn single_stone_voxel_lands_at_origin() {
    let stone = uniform(16, 16, px(120, 120, 120, 255));
    let lib = library_with(1, stone);
    let canvas = render_voxels(&lib, &vec![voxel(0, 0, 0, 1)]).unwrap();
    assert_eq!(canvas.width, CANVAS_WIDTH);
    assert_eq!(canvas.height, CANVAS_HEIGHT);
    let mut drawn = 0usize;
    for (i, p) in canvas.pixels.iter().enumerate() {
        let x = (i % CANVAS_WIDTH as usize) as u32;
        let y = (i / CANVAS_WIDTH as usize) as u32;
        let inside = (1016..1032).contains(&x) && (2040..2056).contains(&y);
        if inside {
            assert_eq!(*p, px(120, 120, 120, 255));
            drawn += 1;
        } else {
            assert_eq!(*p, px(0, 0, 0, 0));
        }
    }
    assert_eq!(drawn, 256);
}

#[test]
fn rendering_twice_is_identical() {
    let mut lib = TextureLibrary::new();
    lib.insert(1, uniform(16, 16, px(120, 120, 120, 255)));
    lib.insert(2, uniform(16, 16, px(20, 200, 20, 128)));
    let voxels = vec![
        voxel(3, 0, 4, 1),
        voxel(3, 1, 4, 2),
        voxel(4, 0, 4, 1),
        voxel(127, 255, 127, 2),
    ];
    let a = render_voxels(&lib, &voxels).unwrap();
    let b = render_voxels(&lib, &voxels).unwrap();
    assert_eq!(a.pixels, b.pixels);
}

#[test]
fn later_voxels_are_drawn_over_earlier_ones() {
    let mut lib = TextureLibrary::new();
    lib.insert(1, uniform(16, 16, px(10, 10, 10, 255)));
    lib.insert(2, uniform(16, 16, px(200, 0, 0, 255)));
    let c = render_voxels(&lib, &vec![voxel(0, 0, 0, 1), voxel(0, 0, 0, 2)]).unwrap();
    assert_eq!(c.get_pixel(1020, 2045), px(200, 0, 0, 255));
    let d = render_voxels(&lib, &vec![voxel(0, 0, 0, 2), voxel(0, 0, 0, 1)]).unwrap();
    assert_eq!(d.get_pixel(1020, 2045), px(10, 10, 10, 255));
}

#[test]
fn unknown_block_id_is_an_error() {
    let lib = library_with(1, transparent());
    let r = render_voxels(&lib, &vec![voxel(0, 0, 0, 1), voxel(1, 1, 1, 7), voxel(200, 0, 0, 1)]);
    assert_eq!(r.err(), Some(RenderError::UnknownBlock(7)));
}

#[test]
fn voxel_outside_segment_is_an_error() {
    let lib = library_with(1, transparent());
    let r = render_voxels(&lib, &vec![voxel(0, 256, 0, 1), voxel(1, 1, 1, 7)]);
    assert_eq!(r.err(), Some(RenderError::OutOfSegment(0, 256, 0)));
}
