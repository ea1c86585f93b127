use lightly_rusted::tiling::{create_patches, patch_pixels, RenderPatch, PATCH_SIZE};

fn p(x0: u32, y0: u32, x1: u32, y1: u32) -> RenderPatch {
    RenderPatch { x0, y0, x1, y1 }
}

#[test]
fn patches_of_small_image() {
    let patches = create_patches(200, 100);
    assert_eq!(
        patches,
        vec![
            p(0, 0, 96, 96),
            p(96, 0, 192, 96),
            p(192, 0, 200, 96),
            p(0, 96, 96, 100),
            p(96, 96, 192, 100),
            p(192, 96, 200, 100),
        ]
    );
}

#[test]
fn patches_of_exact_multiple() {
    let patches = create_patches(192, 96);
    assert_eq!(patches, vec![p(0, 0, 96, 96), p(96, 0, 192, 96)]);
}

#[test]
fn patches_of_default_size() {
    let patches = create_patches(400, 300);
    assert_eq!(patches.len(), 5 * 4);
    assert_eq!(patches[4], p(384, 0, 400, 96));
    assert_eq!(patches[19], p(384, 288, 400, 300));
}

#[test]
fn empty_image_has_no_patches() {
    assert!(create_patches(0, 0).is_empty());
    assert!(create_patches(0, 50).is_empty());
    assert!(create_patches(50, 0).is_empty());
}

#[test]
fn one_pixel_image() {
    assert_eq!(create_patches(1, 1), vec![p(0, 0, 1, 1)]);
}

#[test]
fn one_pixel_past_a_multiple() {
    let w = 3 * PATCH_SIZE + 1;
    let patches = create_patches(w, 1);
    assert_eq!(patches.len(), 4);
    assert_eq!(patches[3], p(3 * PATCH_SIZE, 0, w, 1));
}

#[test]
fn every_pixel_in_exactly_one_patch() {
    for &(w, h) in &[(200u32, 100u32), (96, 96), (97, 1), (1, 300), (250, 193)] {
        let patches = create_patches(w, h);
        for y in 0..h {
            for x in 0..w {
                let n = patches
                    .iter()
                    .filter(|q| q.x0 <= x && x < q.x1 && q.y0 <= y && y < q.y1)
                    .count();
                assert_eq!(n, 1, "pixel ({}, {}) of {}x{}", x, y, w, h);
            }
        }
        for q in &patches {
            assert!(q.x0 < q.x1 && q.x1 <= w && q.y0 < q.y1 && q.y1 <= h);
            assert!(q.x1 - q.x0 <= PATCH_SIZE && q.y1 - q.y0 <= PATCH_SIZE);
        }
    }
}

#[test]
fn pixels_of_patch_row_by_row() {
    let px = patch_pixels(&p(10, 20, 13, 22));
    assert_eq!(px, vec![(10, 20), (11, 20), (12, 20), (10, 21), (11, 21), (12, 21)]);
}

#[test]
fn pixels_of_empty_or_reversed_patch() {
    assert!(patch_pixels(&p(5, 5, 5, 9)).is_empty());
    assert!(patch_pixels(&p(5, 5, 9, 5)).is_empty());
    assert!(patch_pixels(&p(9, 5, 5, 9)).is_empty());
}

#[test]
fn patch_pixels_list_each_pixel_once() {
    let q = p(96, 192, 192, 200);
    let px = patch_pixels(&q);
    assert_eq!(px.len(), 96 * 8);
    let mut seen = std::collections::HashSet::new();
    for &(x, y) in &px {
        assert!(q.x0 <= x && x < q.x1 && q.y0 <= y && y < q.y1);
        assert!(seen.insert((x, y)));
    }
}
