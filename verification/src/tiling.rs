use vstd::prelude::*;
use vstd::arithmetic::div_mod::lemma_fundamental_div_mod;

verus! {

/// The side, in pixels, of the square patches into which an image is split for rendering.
pub const PATCH_SIZE: u32 = 96;

/// A rectangle of pixels `x0 <= x < x1`, `y0 <= y < y1` rendered as one unit of work.
#[derive(Clone, Copy, Debug, PartialEq, Eq, Structural)]
pub struct RenderPatch {
    pub x0: u32,
    pub y0: u32,
    pub x1: u32,
    pub y1: u32,
}

/// Number of patches needed to cover `n` pixels along one axis (`n / PATCH_SIZE`, rounded up).
pub open spec fn patches_along(n: u32) -> int {
    (n + PATCH_SIZE - 1) / (PATCH_SIZE as int)
}

pub open spec fn min_int(a: int, b: int) -> int {
    if a <= b { a } else { b }
}

/// The patch in column `px` and row `py` of the grid over a `width` x `height` image:
/// a `PATCH_SIZE` square whose far edges are clipped to the image.
pub open spec fn grid_patch(width: u32, height: u32, px: int, py: int) -> RenderPatch {
    RenderPatch {
        x0: (px * PATCH_SIZE) as u32,
        y0: (py * PATCH_SIZE) as u32,
        x1: min_int(px * PATCH_SIZE + PATCH_SIZE, width as int) as u32,
        y1: min_int(py * PATCH_SIZE + PATCH_SIZE, height as int) as u32,
    }
}

/// `patches` is the grid over a `width` x `height` image in row-major order:
/// the patch in column `px` and row `py` stands at index `py * columns + px`.
pub open spec fn is_patch_grid(width: u32, height: u32, patches: Seq<RenderPatch>) -> bool {
    let nx = patches_along(width);
    let ny = patches_along(height);
    &&& patches.len() == nx * ny
    &&& forall|px: int, py: int|
        0 <= px < nx && 0 <= py < ny ==> #[trigger] patches[py * nx + px] == grid_patch(width, height, px, py)
}

pub open spec fn patch_contains(p: RenderPatch, x: int, y: int) -> bool {
    p.x0 <= x < p.x1 && p.y0 <= y < p.y1
}

proof fn lemma_grid_index(px: int, py: int, nx: int, ny: int)
    requires
        0 <= px < nx,
        0 <= py < ny,
    ensures
        0 <= py * nx + px < nx * ny,
        py * nx + px < (py + 1) * nx,
        py * nx <= py * nx + px,
{
    assert(py * nx + px < (py + 1) * nx) by (nonlinear_arith)
        requires 0 <= px < nx;
    assert((py + 1) * nx <= nx * ny) by (nonlinear_arith)
        requires 0 <= py < ny, 0 < nx;
    assert(0 <= py * nx) by (nonlinear_arith)
        requires 0 <= py, 0 < nx;
}

/// The patch origins along one axis stay below the image size.
proof fn lemma_patch_origin(n: u32, p: int)
    requires
        n + PATCH_SIZE <= u32::MAX,
        0 <= p < patches_along(n),
    ensures
        0 <= p * PATCH_SIZE < n,
{
    let c = patches_along(n);
    assert(c * 96 <= n + 95) by (nonlinear_arith)
        requires c == (n + 95) / 96;
    assert(0 <= p * 96 <= c * 96 - 96) by (nonlinear_arith)
        requires 0 <= p < c;
}

/// Splits a `width` x `height` image into `PATCH_SIZE` squares, row by row,
/// clipping the last column and row to the image.
pub fn create_patches(width: u32, height: u32) -> (patches: Vec<RenderPatch>)
    requires
        width + PATCH_SIZE <= u32::MAX,
        height + PATCH_SIZE <= u32::MAX,
    ensures
        is_patch_grid(width, height, patches@),
{
    let mut patches: Vec<RenderPatch> = Vec::new();
    let patches_x: u32 = (width + PATCH_SIZE - 1) / PATCH_SIZE;
    let patches_y: u32 = (height + PATCH_SIZE - 1) / PATCH_SIZE;
    let ghost nx = patches_x as int;
    let ghost ny = patches_y as int;
    assert(nx == patches_along(width) && ny == patches_along(height));

    let mut patch_y: u32 = 0;
    while patch_y < patches_y
        invariant
            width + PATCH_SIZE <= u32::MAX,
            height + PATCH_SIZE <= u32::MAX,
            nx == patches_x == patches_along(width),
            ny == patches_y == patches_along(height),
            0 <= patch_y <= patches_y,
            patches.len() == patch_y * nx,
            forall|px: int, py: int|
                0 <= px < nx && 0 <= py < patch_y ==> #[trigger] patches@[py * nx + px] == grid_patch(width, height, px, py),
        decreases patches_y - patch_y,
    {
        let mut patch_x: u32 = 0;
        while patch_x < patches_x
            invariant
                width + PATCH_SIZE <= u32::MAX,
                height + PATCH_SIZE <= u32::MAX,
                nx == patches_x == patches_along(width),
                ny == patches_y == patches_along(height),
                0 <= patch_y < patches_y,
                0 <= patch_x <= patches_x,
                patches.len() == patch_y * nx + patch_x,
                forall|px: int, py: int|
                    0 <= px < nx && 0 <= py < patch_y ==> #[trigger] patches@[py * nx + px] == grid_patch(width, height, px, py),
                forall|px: int| 0 <= px < patch_x ==> #[trigger] patches@[patch_y * nx + px] == grid_patch(width, height, px, patch_y as int),
            decreases patches_x - patch_x,
        {
            proof {
                lemma_patch_origin(width, patch_x as int);
                lemma_patch_origin(height, patch_y as int);
            }
            let x0: u32 = patch_x * PATCH_SIZE;
            let y0: u32 = patch_y * PATCH_SIZE;
            let x1: u32 = if x0 + PATCH_SIZE < width { x0 + PATCH_SIZE } else { width };
            let y1: u32 = if y0 + PATCH_SIZE < height { y0 + PATCH_SIZE } else { height };
            let ghost before = patches@;
            patches.push(RenderPatch { x0, y0, x1, y1 });
            proof {
                assert(patches@[patch_y * nx + patch_x] == grid_patch(width, height, patch_x as int, patch_y as int));
                assert forall|px: int, py: int|
                    0 <= px < nx && 0 <= py < patch_y implies #[trigger] patches@[py * nx + px] == grid_patch(width, height, px, py) by {
                    lemma_grid_index(px, py, nx, patch_y as int);
                    assert(py * nx + px < patch_y * nx) by (nonlinear_arith)
                        requires py * nx + px < (py + 1) * nx, py + 1 <= patch_y, 0 < nx;
                    assert(patches@[py * nx + px] == before[py * nx + px]);
                }
            }
            patch_x = patch_x + 1;
        }
        proof {
            assert((patch_y + 1) * nx == patch_y * nx + nx) by (nonlinear_arith);
        }
        patch_y = patch_y + 1;
    }
    assert(ny * nx == nx * ny) by (nonlinear_arith);
    patches
}

/// Width of a patch in pixels (zero when its edges are reversed).
pub open spec fn patch_width(p: RenderPatch) -> int {
    if p.x0 <= p.x1 { p.x1 - p.x0 } else { 0 }
}

/// Height of a patch in pixels (zero when its edges are reversed).
pub open spec fn patch_height(p: RenderPatch) -> int {
    if p.y0 <= p.y1 { p.y1 - p.y0 } else { 0 }
}

/// `pixels` lists the `(x, y)` positions of patch `p` row by row, left to right:
/// column `j` of row `i` of the patch stands at index `i * width + j`.
pub open spec fn lists_patch_pixels(p: RenderPatch, pixels: Seq<(u32, u32)>) -> bool {
    let w = patch_width(p);
    let h = patch_height(p);
    &&& pixels.len() == w * h
    &&& forall|i: int, j: int|
        0 <= i < h && 0 <= j < w ==> #[trigger] pixels[i * w + j] == ((p.x0 + j) as u32, (p.y0 + i) as u32)
}

/// The positions of the pixels of a patch, in the order in which they are rendered:
/// row by row from `y0`, each row from `x0`.
pub fn patch_pixels(patch: &RenderPatch) -> (pixels: Vec<(u32, u32)>)
    ensures
        lists_patch_pixels(*patch, pixels@),
{
    let mut pixels: Vec<(u32, u32)> = Vec::new();
    let ghost w = patch_width(*patch);
    let ghost h = patch_height(*patch);
    let mut y: u32 = patch.y0;
    while y < patch.y1
        invariant
            w == patch_width(*patch),
            h == patch_height(*patch),
            patch.y0 <= y,
            patch.y0 < patch.y1 ==> y <= patch.y1,
            patch.y1 <= patch.y0 ==> y == patch.y0,
            pixels.len() == (y - patch.y0) * w,
            forall|i: int, j: int|
                0 <= i < y - patch.y0 && 0 <= j < w ==> #[trigger] pixels@[i * w + j] == ((patch.x0 + j) as u32, (patch.y0 + i) as u32),
        decreases patch.y1 - y,
    {
        let ghost row = y - patch.y0;
        let mut x: u32 = patch.x0;
        while x < patch.x1
            invariant
                w == patch_width(*patch),
                h == patch_height(*patch),
                patch.y0 <= y < patch.y1,
                row == y - patch.y0,
                patch.x0 <= x,
                patch.x0 < patch.x1 ==> x <= patch.x1,
                patch.x1 <= patch.x0 ==> x == patch.x0,
                pixels.len() == row * w + (x - patch.x0),
                forall|i: int, j: int|
                    0 <= i < row && 0 <= j < w ==> #[trigger] pixels@[i * w + j] == ((patch.x0 + j) as u32, (patch.y0 + i) as u32),
                forall|j: int| 0 <= j < x - patch.x0 ==> #[trigger] pixels@[row * w + j] == ((patch.x0 + j) as u32, y),
            decreases patch.x1 - x,
        {
            let ghost before = pixels@;
            pixels.push((x, y));
            proof {
                assert forall|i: int, j: int|
                    0 <= i < row && 0 <= j < w implies #[trigger] pixels@[i * w + j] == ((patch.x0 + j) as u32, (patch.y0 + i) as u32) by {
                    assert(i * w + j < row * w) by (nonlinear_arith)
                        requires 0 <= j < w, i + 1 <= row;
                    assert(0 <= i * w) by (nonlinear_arith)
                        requires 0 <= i, 0 <= w;
                    assert(pixels@[i * w + j] == before[i * w + j]);
                }
            }
            x = x + 1;
        }
        proof {
            assert(pixels.len() == row * w + w) by {
                if patch.x0 < patch.x1 {
                    assert(x == patch.x1);
                }
            }
            assert((row + 1) * w == row * w + w) by (nonlinear_arith);
        }
        y = y + 1;
    }
    proof {
        if patch.y0 < patch.y1 {
            assert(y == patch.y1);
        } else {
            assert(h == 0);
            assert(y == patch.y0);
        }
        assert(h * w == w * h) by (nonlinear_arith);
    }
    pixels
}

/// Every entry of a patch grid is the grid patch of its own column and row.
proof fn lemma_grid_entry(width: u32, height: u32, patches: Seq<RenderPatch>, k: int) -> (pos: (int, int))
    requires
        is_patch_grid(width, height, patches),
        0 <= k < patches.len(),
    ensures
        0 <= pos.0 < patches_along(width),
        0 <= pos.1 < patches_along(height),
        k == pos.1 * patches_along(width) + pos.0,
        patches[k] == grid_patch(width, height, pos.0, pos.1),
{
    let nx = patches_along(width);
    let ny = patches_along(height);
    assert(nx > 0) by (nonlinear_arith)
        requires patches.len() == nx * ny, 0 <= k < patches.len(), 0 <= ny;
    lemma_fundamental_div_mod(k, nx);
    let px = k % nx;
    let py = k / nx;
    assert(k == py * nx + px) by (nonlinear_arith)
        requires k == nx * py + px;
    assert(0 <= py < ny) by (nonlinear_arith)
        requires k == py * nx + px, 0 <= px < nx, 0 <= k < nx * ny;
    assert(patches[py * nx + px] == grid_patch(width, height, px, py));
    (px, py)
}

/// Law: the patches of a grid lie inside the image, none of them is empty, and
/// none is wider or taller than `PATCH_SIZE`.
pub proof fn lemma_grid_patches_inside_image(width: u32, height: u32, patches: Seq<RenderPatch>, k: int)
    requires
        width + PATCH_SIZE <= u32::MAX,
        height + PATCH_SIZE <= u32::MAX,
        is_patch_grid(width, height, patches),
        0 <= k < patches.len(),
    ensures
        patches[k].x0 < patches[k].x1 <= width,
        patches[k].y0 < patches[k].y1 <= height,
        patches[k].x1 - patches[k].x0 <= PATCH_SIZE,
        patches[k].y1 - patches[k].y0 <= PATCH_SIZE,
{
    let (px, py) = lemma_grid_entry(width, height, patches, k);
    lemma_patch_origin(width, px);
    lemma_patch_origin(height, py);
}

/// Law: the patches of a grid cover the image exactly once; every pixel of a
/// `width` x `height` image lies in one and only one of them.
pub proof fn lemma_grid_partitions_image(width: u32, height: u32, patches: Seq<RenderPatch>, x: int, y: int)
    requires
        width + PATCH_SIZE <= u32::MAX,
        height + PATCH_SIZE <= u32::MAX,
        is_patch_grid(width, height, patches),
        0 <= x < width,
        0 <= y < height,
    ensures
        exists|k: int| 0 <= k < patches.len() && patch_contains(#[trigger] patches[k], x, y),
        forall|k1: int, k2: int|
            0 <= k1 < patches.len() && 0 <= k2 < patches.len() && patch_contains(#[trigger] patches[k1], x, y)
                && patch_contains(#[trigger] patches[k2], x, y) ==> k1 == k2,
{
    let nx = patches_along(width);
    let ny = patches_along(height);
    let px = x / 96;
    let py = y / 96;
    assert(0 <= px < nx);
    assert(0 <= py < ny);
    lemma_grid_index(px, py, nx, ny);
    let k = py * nx + px;
    assert(patches[k] == grid_patch(width, height, px, py));
    lemma_patch_origin(width, px);
    lemma_patch_origin(height, py);
    assert(patch_contains(patches[k], x, y));
    assert forall|k1: int, k2: int|
        0 <= k1 < patches.len() && 0 <= k2 < patches.len() && patch_contains(#[trigger] patches[k1], x, y)
            && patch_contains(#[trigger] patches[k2], x, y) implies k1 == k2 by {
        let (px1, py1) = lemma_grid_entry(width, height, patches, k1);
        let (px2, py2) = lemma_grid_entry(width, height, patches, k2);
        lemma_patch_origin(width, px1);
        lemma_patch_origin(height, py1);
        lemma_patch_origin(width, px2);
        lemma_patch_origin(height, py2);
        assert(px1 == px && px2 == px);
        assert(py1 == py && py2 == py);
    }
}

/// Law: the pixel list of a patch holds each pixel of the patch exactly once and nothing else.
pub proof fn lemma_patch_pixels_exact(p: RenderPatch, pixels: Seq<(u32, u32)>, x: u32, y: u32)
    requires
        lists_patch_pixels(p, pixels),
    ensures
        patch_contains(p, x as int, y as int) <==> pixels.contains((x, y)),
        forall|i1: int, i2: int|
            0 <= i1 < pixels.len() && 0 <= i2 < pixels.len() && #[trigger] pixels[i1] == #[trigger] pixels[i2] ==> i1 == i2,
{
    let w = patch_width(p);
    let h = patch_height(p);
    assert forall|i: int| 0 <= i < pixels.len() implies {
        let r = i / w;
        let c = i % w;
        &&& 0 <= r < h
        &&& 0 <= c < w
        &&& i == r * w + c
        &&& #[trigger] pixels[i] == ((p.x0 + c) as u32, (p.y0 + r) as u32)
    } by {
        assert(w > 0) by (nonlinear_arith)
            requires pixels.len() == w * h, 0 <= i < pixels.len(), 0 <= h;
        lemma_fundamental_div_mod(i, w);
        let r = i / w;
        let c = i % w;
        assert(i == r * w + c) by (nonlinear_arith)
            requires i == w * r + c;
        assert(0 <= r < h) by (nonlinear_arith)
            requires i == r * w + c, 0 <= c < w, 0 <= i < w * h;
        assert(pixels[r * w + c] == ((p.x0 + c) as u32, (p.y0 + r) as u32));
    }
    if patch_contains(p, x as int, y as int) {
        let r = y - p.y0;
        let c = x - p.x0;
        assert(0 <= r * w + c < w * h) by (nonlinear_arith)
            requires 0 <= r < h, 0 <= c < w;
        assert(pixels[r * w + c] == (x, y));
    }
    if pixels.contains((x, y)) {
        let i = choose|i: int| 0 <= i < pixels.len() && pixels[i] == (x, y);
        assert(pixels[i] == (x, y));
    }
    assert forall|i1: int, i2: int|
        0 <= i1 < pixels.len() && 0 <= i2 < pixels.len() && #[trigger] pixels[i1] == #[trigger] pixels[i2] implies i1 == i2 by {
        assert(pixels[i1] == ((p.x0 + i1 % w) as u32, (p.y0 + i1 / w) as u32));
        assert(pixels[i2] == ((p.x0 + i2 % w) as u32, (p.y0 + i2 / w) as u32));
    }
}

} // verus!
