use lightly_rusted::canvas::{assemble, Color, RenderedPixel};
use lightly_rusted::tiling::{create_patches, patch_pixels};

fn rp(x: u32, y: u32, r: u8, g: u8, b: u8) -> RenderedPixel {
    RenderedPixel { x, y, color: Color { r, g, b } }
}

#[test]
fn assembled_image_has_requested_size_and_black_background() {
    let img = assemble(4, 3, &vec![]).image;
    assert_eq!(img.dimensions(), (4, 3));
    for p in img.pixels() {
        assert_eq!(p.0, [0, 0, 0]);
    }
}

#[test]
fn assembled_image_shows_rendered_colours() {
    let results = vec![vec![rp(0, 0, 10, 20, 30), rp(1, 0, 40, 50, 60)], vec![rp(2, 1, 255, 0, 7)]];
    let img = assemble(3, 2, &results).image;
    assert_eq!(img.get_pixel(0, 0).0, [10, 20, 30]);
    assert_eq!(img.get_pixel(1, 0).0, [40, 50, 60]);
    assert_eq!(img.get_pixel(2, 1).0, [255, 0, 7]);
    assert_eq!(img.get_pixel(2, 0).0, [0, 0, 0]);
    assert_eq!(img.get_pixel(0, 1).0, [0, 0, 0]);
}

#[test]
fn later_pixel_wins() {
    let results = vec![vec![rp(1, 1, 1, 1, 1)], vec![rp(1, 1, 9, 8, 7)]];
    let img = assemble(2, 2, &results).image;
    assert_eq!(img.get_pixel(1, 1).0, [9, 8, 7]);
}

#[test]
fn rendering_every_patch_fills_every_pixel() {
    let (w, h) = (130u32, 100u32);
    let patches = create_patches(w, h);
    let results: Vec<Vec<RenderedPixel>> = patches
        .iter()
        .map(|q| {
            patch_pixels(q)
                .into_iter()
                .map(|(x, y)| rp(x, y, (x % 251) as u8 + 1, (y % 251) as u8, 5))
                .collect()
        })
        .collect();
    let img = assemble(w, h, &results).image;
    for y in 0..h {
        for x in 0..w {
            assert_eq!(img.get_pixel(x, y).0, [(x % 251) as u8 + 1, (y % 251) as u8, 5]);
        }
    }
}
