use vstd::prelude::*;
use crate::tiling::{
    is_patch_grid, lemma_grid_partitions_image, lemma_patch_pixels_exact, lists_patch_pixels,
    patch_contains, RenderPatch, PATCH_SIZE,
};

verus! {

/// An 8-bit RGB image of the `image` crate. Verus refuses a declaration of the
/// crate's `ImageBuffer` (its pixel parameter is bounded by the crate's `Pixel`
/// trait), so the buffer is held here, out of Verus's sight: verified code makes it
/// only through `new_canvas`, and the field is public so that the finished image can
/// be handed to the program that saves it.
#[verifier::external_body]
pub struct Canvas {
    pub image: image::RgbImage,
}

/// What a canvas holds: the colour of each pixel, keyed by `(x, y)`.
pub uninterp spec fn canvas_pixels(c: Canvas) -> Map<(u32, u32), Color>;

/// The `(width, height)` a canvas was made with.
pub uninterp spec fn canvas_dimensions(c: Canvas) -> (u32, u32);

/// An 8-bit RGB colour.
#[derive(Clone, Copy, Debug, PartialEq, Eq, Structural)]
pub struct Color {
    pub r: u8,
    pub g: u8,
    pub b: u8,
}

/// One rendered pixel: its position and its 8-bit RGB colour.
#[derive(Clone, Copy, Debug, PartialEq, Eq, Structural)]
pub struct RenderedPixel {
    pub x: u32,
    pub y: u32,
    pub color: Color,
}

/// A picture of the given size whose every pixel is black.
pub open spec fn blank(width: u32, height: u32) -> Map<(u32, u32), Color> {
    Map::new(|p: (u32, u32)| p.0 < width && p.1 < height, |p: (u32, u32)| Color { r: 0, g: 0, b: 0 })
}

/// Where pixel `(x, y)` of an 8-bit RGB image `width` pixels wide starts in its bytes:
/// the image is stored row after row, three bytes (red, green, blue) per pixel.
pub open spec fn pixel_offset(width: u32, x: u32, y: u32) -> int {
    3 * (y * width + x)
}

/// The colour stored at pixel `(x, y)` of the bytes of an image `width` pixels wide.
pub open spec fn color_at(bytes: Seq<u8>, width: u32, x: u32, y: u32) -> Color {
    let o = pixel_offset(width, x, y);
    Color { r: bytes[o], g: bytes[o + 1], b: bytes[o + 2] }
}

/// The bytes of an 8-bit RGB image of the given size, laid out as the `image` crate
/// stores an `RgbImage`: row after row, three bytes per pixel.
pub struct PixelBuffer {
    width: u32,
    height: u32,
    data: Vec<u8>,
}

impl PixelBuffer {
    pub closed spec fn width(&self) -> u32 {
        self.width
    }

    pub closed spec fn height(&self) -> u32 {
        self.height
    }

    pub closed spec fn bytes(&self) -> Seq<u8> {
        self.data@
    }

    /// The buffer holds exactly the three bytes of every pixel.
    pub open spec fn well_formed(&self) -> bool {
        self.bytes().len() == 3 * (self.width() as int) * (self.height() as int)
    }

    /// The colour of each pixel of the buffer, keyed by `(x, y)`.
    pub open spec fn pixels(&self) -> Map<(u32, u32), Color> {
        Map::new(
            |p: (u32, u32)| p.0 < self.width() && p.1 < self.height(),
            |p: (u32, u32)| color_at(self.bytes(), self.width(), p.0, p.1),
        )
    }
}

/// Distinct pixels of an image start at distinct rows-and-columns positions.
proof fn lemma_pixel_index_unique(width: u32, x1: u32, y1: u32, x2: u32, y2: u32)
    requires
        x1 < width,
        x2 < width,
        y1 * width + x1 == y2 * width + x2,
    ensures
        x1 == x2,
        y1 == y2,
{
    if y1 < y2 {
        assert(y1 * width + x1 < y2 * width + x2) by (nonlinear_arith)
            requires x1 < width, y1 < y2;
    } else if y2 < y1 {
        assert(y2 * width + x2 < y1 * width + x1) by (nonlinear_arith)
            requires x2 < width, y2 < y1;
    }
}

/// A pixel inside the image lies wholly inside its bytes.
proof fn lemma_pixel_inside(width: u32, height: u32, x: u32, y: u32)
    requires
        x < width,
        y < height,
    ensures
        0 <= y * width + x < width * height,
        pixel_offset(width, x, y) + 3 <= 3 * (width as int) * (height as int),
{
    assert(y * width + x < width * height) by (nonlinear_arith)
        requires x < width, y < height;
    assert(0 <= y * width) by (nonlinear_arith);
    assert(3 * (width as int) * (height as int) == 3 * (width * height)) by (nonlinear_arith);
}

/// A black image of the given size.
fn blank_buffer(width: u32, height: u32) -> (b: PixelBuffer)
    requires
        3 * (width as int) * (height as int) <= usize::MAX,
    ensures
        b.width() == width,
        b.height() == height,
        b.well_formed(),
        b.pixels() == blank(width, height),
{
    assert(0 <= (width as int) * (height as int) <= 3 * (width as int) * (height as int)) by (nonlinear_arith);
    assert(3 * (width as int) * (height as int) == (width as int) * (height as int) * 3) by (nonlinear_arith);
    let n: usize = (width as usize) * (height as usize) * 3;
    let data: Vec<u8> = vec![0u8; n];
    let b = PixelBuffer { width, height, data };
    assert forall|x: u32, y: u32| x < width && y < height implies #[trigger] color_at(b.bytes(), width, x, y) == (Color { r: 0, g: 0, b: 0 }) by {
        lemma_pixel_inside(width, height, x, y);
    }
    assert(b.pixels() =~= blank(width, height));
    b
}

/// Writes `color` into the three bytes of pixel `(x, y)`.
fn put_canvas_pixel(c: &mut PixelBuffer, x: u32, y: u32, color: Color)
    requires
        old(c).well_formed(),
        x < old(c).width(),
        y < old(c).height(),
    ensures
        final(c).width() == old(c).width(),
        final(c).height() == old(c).height(),
        final(c).well_formed(),
        final(c).pixels() == old(c).pixels().insert((x, y), color),
        forall|i: int|
            0 <= i < old(c).bytes().len() && !(pixel_offset(old(c).width(), x, y) <= i < pixel_offset(old(c).width(), x, y) + 3)
                ==> #[trigger] final(c).bytes()[i] == old(c).bytes()[i],
{
    let ghost w = c.width;
    let ghost h = c.height;
    let ghost before = c.data@;
    proof {
        lemma_pixel_inside(w, h, x, y);
        assert(y * w <= y * w + x);
    }
    let len: usize = c.data.len();
    assert(pixel_offset(w, x, y) + 3 <= len);
    let row: usize = (y as usize) * (c.width as usize);
    let o: usize = (row + x as usize) * 3;
    assert(o == pixel_offset(w, x, y));
    c.data.set(o, color.r);
    c.data.set(o + 1, color.g);
    c.data.set(o + 2, color.b);
    proof {
        assert forall|x2: u32, y2: u32| x2 < w && y2 < h && !(x2 == x && y2 == y) implies
            #[trigger] color_at(c.data@, w, x2, y2) == color_at(before, w, x2, y2) by {
            lemma_pixel_inside(w, h, x2, y2);
            if y2 * w + x2 == y * w + x {
                lemma_pixel_index_unique(w, x2, y2, x, y);
            }
            if y2 * w + x2 < y * w + x {
                assert(pixel_offset(w, x2, y2) + 3 <= pixel_offset(w, x, y));
            } else {
                assert(pixel_offset(w, x, y) + 3 <= pixel_offset(w, x2, y2));
            }
        }
        assert(c.pixels() =~= old(c).pixels().insert((x, y), color));
    }
}

/// Calls `image::ImageBuffer::from_raw`, whose source keeps `data` as the image's
/// bytes and `width` and `height` as its size when `data` holds at least
/// `3 * width * height` bytes; the image then reads pixel `(x, y)` from the three
/// bytes at `3 * (y * width + x)`. The contract claims that size and those colours.
#[verifier::external_body]
fn new_canvas(buffer: PixelBuffer) -> (c: Canvas)
    requires
        buffer.well_formed(),
    ensures
        canvas_dimensions(c) == (buffer.width(), buffer.height()),
        canvas_pixels(c) == buffer.pixels(),
{
    Canvas { image: image::RgbImage::from_raw(buffer.width, buffer.height, buffer.data).unwrap() }
}

/// The rendered pixels of all patches, patch after patch.
pub open spec fn flatten_patches(patches: Seq<Seq<RenderedPixel>>) -> Seq<RenderedPixel>
    decreases patches.len(),
{
    if patches.len() == 0 {
        Seq::empty()
    } else {
        flatten_patches(patches.drop_last()) + patches.last()
    }
}

/// The views of the rendered pixel lists, one per patch.
pub open spec fn patch_results_view(results: Seq<Vec<RenderedPixel>>) -> Seq<Seq<RenderedPixel>> {
    results.map_values(|v: Vec<RenderedPixel>| v@)
}

/// The picture `base` after each pixel of `pixels` has been written over it, in order.
pub open spec fn paint(base: Map<(u32, u32), Color>, pixels: Seq<RenderedPixel>) -> Map<(u32, u32), Color>
    decreases pixels.len(),
{
    if pixels.len() == 0 {
        base
    } else {
        let p = pixels.last();
        paint(base, pixels.drop_last()).insert((p.x, p.y), p.color)
    }
}

/// Every rendered pixel lies inside a `width` x `height` image.
pub open spec fn all_inside(width: u32, height: u32, results: Seq<Seq<RenderedPixel>>) -> bool {
    forall|i: int, j: int|
        0 <= i < results.len() && 0 <= j < results[i].len() ==> #[trigger] results[i][j].x < width
            && results[i][j].y < height
}

/// The bytes of the output image: a black `width` x `height` picture over which every
/// rendered pixel of every patch is written, patch after patch.
pub fn assemble_buffer(width: u32, height: u32, patch_results: &Vec<Vec<RenderedPixel>>) -> (img: PixelBuffer)
    requires
        3 * (width as int) * (height as int) <= usize::MAX,
        all_inside(width, height, patch_results_view(patch_results@)),
    ensures
        img.width() == width,
        img.height() == height,
        img.well_formed(),
        img.pixels() == paint(blank(width, height), flatten_patches(patch_results_view(patch_results@))),
        img.bytes().len() == 3 * (width as int) * (height as int),
        forall|n: int| #![trigger flatten_patches(patch_results_view(patch_results@))[n]]
            0 <= n < flatten_patches(patch_results_view(patch_results@)).len()
                && last_at_its_position(flatten_patches(patch_results_view(patch_results@)), n) ==> {
                let p = flatten_patches(patch_results_view(patch_results@))[n];
                color_at(img.bytes(), width, p.x, p.y) == p.color
            },
        forall|x: u32, y: u32|
            x < width && y < height && !named(flatten_patches(patch_results_view(patch_results@)), x, y)
                ==> #[trigger] color_at(img.bytes(), width, x, y) == (Color { r: 0, g: 0, b: 0 }),
{
    let ghost rows = patch_results_view(patch_results@);
    let mut img = blank_buffer(width, height);
    let mut i: usize = 0;
    while i < patch_results.len()
        invariant
            rows == patch_results_view(patch_results@),
            all_inside(width, height, rows),
            0 <= i <= patch_results.len(),
            img.width() == width,
            img.height() == height,
            img.well_formed(),
            img.pixels() == paint(blank(width, height), flatten_patches(rows.take(i as int))),
        decreases patch_results.len() - i,
    {
        let pixels = &patch_results[i];
        let ghost done = flatten_patches(rows.take(i as int));
        assert(rows[i as int] == pixels@);
        let mut j: usize = 0;
        while j < pixels.len()
            invariant
                rows == patch_results_view(patch_results@),
                all_inside(width, height, rows),
                0 <= i < patch_results.len(),
                rows[i as int] == pixels@,
                0 <= j <= pixels.len(),
                img.width() == width,
                img.height() == height,
                img.well_formed(),
                img.pixels() == paint(blank(width, height), done + pixels@.take(j as int)),
            decreases pixels.len() - j,
        {
            let p = pixels[j];
            assert(rows[i as int][j as int] == p);
            put_canvas_pixel(&mut img, p.x, p.y, p.color);
            assert((done + pixels@.take(j as int + 1)).drop_last() =~= done + pixels@.take(j as int));
            j = j + 1;
        }
        assert(rows.take(i as int + 1).drop_last() =~= rows.take(i as int));
        assert(pixels@.take(pixels.len() as int) =~= pixels@);
        i = i + 1;
    }
    assert(rows.take(patch_results.len() as int) =~= rows);
    proof {
        let flat = flatten_patches(rows);
        lemma_all_inside_flat(width, height, rows);
        assert forall|n: int| #![trigger flat[n]] 0 <= n < flat.len() && last_at_its_position(flat, n) implies
            color_at(img.bytes(), width, flat[n].x, flat[n].y) == flat[n].color by {
            lemma_painted_bytes_show_last_write(img, flat, n);
        }
        assert forall|x: u32, y: u32| x < width && y < height && !named(flat, x, y) implies
            #[trigger] color_at(img.bytes(), width, x, y) == (Color { r: 0, g: 0, b: 0 }) by {
            lemma_painted_bytes_unwritten_black(img, flat, x, y);
        }
    }
    img
}

/// Builds the output image: a black `width` x `height` picture over which every
/// rendered pixel of every patch is written, patch after patch.
pub fn assemble(width: u32, height: u32, patch_results: &Vec<Vec<RenderedPixel>>) -> (img: Canvas)
    requires
        3 * (width as int) * (height as int) <= usize::MAX,
        all_inside(width, height, patch_results_view(patch_results@)),
    ensures
        canvas_dimensions(img) == (width, height),
        canvas_pixels(img) == paint(blank(width, height), flatten_patches(patch_results_view(patch_results@))),
        canvas_pixels(img).dom() == blank(width, height).dom(),
        forall|n: int| #![trigger flatten_patches(patch_results_view(patch_results@))[n]]
            0 <= n < flatten_patches(patch_results_view(patch_results@)).len()
                && last_at_its_position(flatten_patches(patch_results_view(patch_results@)), n) ==> {
                let p = flatten_patches(patch_results_view(patch_results@))[n];
                canvas_pixels(img)[(p.x, p.y)] == p.color
            },
        forall|x: u32, y: u32|
            x < width && y < height && !named(flatten_patches(patch_results_view(patch_results@)), x, y)
                ==> #[trigger] canvas_pixels(img)[(x, y)] == (Color { r: 0, g: 0, b: 0 }),
{
    let buffer = assemble_buffer(width, height, patch_results);
    let ghost flat = flatten_patches(patch_results_view(patch_results@));
    proof {
        lemma_all_inside_flat(width, height, patch_results_view(patch_results@));
        lemma_paint_keeps_positions(width, height, flat);
        assert forall|n: int| #![trigger flat[n]] 0 <= n < flat.len() && last_at_its_position(flat, n) implies
            paint(blank(width, height), flat)[(flat[n].x, flat[n].y)] == flat[n].color by {
            lemma_paint_last_write(blank(width, height), flat, n);
        }
        assert forall|x: u32, y: u32| x < width && y < height && !named(flat, x, y) implies
            #[trigger] paint(blank(width, height), flat)[(x, y)] == (Color { r: 0, g: 0, b: 0 }) by {
            lemma_paint_untouched(blank(width, height), flat, x, y);
        }
    }
    new_canvas(buffer)
}

/// Law: a position that no rendered pixel names keeps what the base picture had there.
pub proof fn lemma_paint_untouched(base: Map<(u32, u32), Color>, pixels: Seq<RenderedPixel>, x: u32, y: u32)
    requires
        forall|n: int| 0 <= n < pixels.len() ==> !(#[trigger] pixels[n].x == x && pixels[n].y == y),
    ensures
        paint(base, pixels).dom().contains((x, y)) == base.dom().contains((x, y)),
        paint(base, pixels)[(x, y)] == base[(x, y)],
    decreases pixels.len(),
{
    if pixels.len() > 0 {
        let rest = pixels.drop_last();
        assert forall|n: int| 0 <= n < rest.len() implies !(#[trigger] rest[n].x == x && rest[n].y == y) by {
            assert(rest[n] == pixels[n]);
        }
        lemma_paint_untouched(base, rest, x, y);
        assert(!(pixels[pixels.len() - 1].x == x && pixels[pixels.len() - 1].y == y));
    }
}

/// Law: the painted picture shows, at the position of a rendered pixel, the colour of
/// that pixel when no later pixel names the same position (the last write wins).
pub proof fn lemma_paint_last_write(base: Map<(u32, u32), Color>, pixels: Seq<RenderedPixel>, n: int)
    requires
        0 <= n < pixels.len(),
        forall|m: int| n < m < pixels.len() ==> !(#[trigger] pixels[m].x == pixels[n].x && pixels[m].y == pixels[n].y),
    ensures
        paint(base, pixels).dom().contains((pixels[n].x, pixels[n].y)),
        paint(base, pixels)[(pixels[n].x, pixels[n].y)] == pixels[n].color,
    decreases pixels.len(),
{
    let last = pixels.len() - 1;
    if n < last {
        let rest = pixels.drop_last();
        assert forall|m: int| n < m < rest.len() implies !(#[trigger] rest[m].x == rest[n].x && rest[m].y == rest[n].y) by {
            assert(rest[m] == pixels[m]);
        }
        lemma_paint_last_write(base, rest, n);
        assert(!(pixels[last].x == pixels[n].x && pixels[last].y == pixels[n].y));
    }
}

/// Law: painting pixels that all lie inside a `width` x `height` picture over a blank
/// picture of that size leaves its set of positions unchanged.
pub proof fn lemma_paint_keeps_positions(width: u32, height: u32, pixels: Seq<RenderedPixel>)
    requires
        forall|n: int| 0 <= n < pixels.len() ==> #[trigger] pixels[n].x < width && pixels[n].y < height,
    ensures
        paint(blank(width, height), pixels).dom() == blank(width, height).dom(),
    decreases pixels.len(),
{
    if pixels.len() > 0 {
        let rest = pixels.drop_last();
        assert forall|n: int| 0 <= n < rest.len() implies #[trigger] rest[n].x < width && rest[n].y < height by {
            assert(rest[n] == pixels[n]);
        }
        lemma_paint_keeps_positions(width, height, rest);
        let p = pixels[pixels.len() - 1];
        assert(blank(width, height).dom().contains((p.x, p.y)));
        assert(paint(blank(width, height), pixels).dom() =~= blank(width, height).dom());
    }
}

/// The positions of a list of rendered pixels.
pub open spec fn positions(pixels: Seq<RenderedPixel>) -> Seq<(u32, u32)> {
    pixels.map_values(|p: RenderedPixel| (p.x, p.y))
}

/// The pixels rendered for the patches of a grid: the `k`-th list holds the
/// pixels of the `k`-th patch, in the order of `patch_pixels`.
pub open spec fn renders_patches(patches: Seq<RenderPatch>, results: Seq<Seq<RenderedPixel>>) -> bool {
    &&& results.len() == patches.len()
    &&& forall|k: int| 0 <= k < patches.len() ==> lists_patch_pixels(#[trigger] patches[k], positions(results[k]))
}

pub open spec fn renders_at(p: RenderedPixel, x: u32, y: u32) -> bool {
    p.x == x && p.y == y
}

proof fn lemma_prefix_renders_once(
    width: u32,
    height: u32,
    patches: Seq<RenderPatch>,
    results: Seq<Seq<RenderedPixel>>,
    x: u32,
    y: u32,
    m: int,
)
    requires
        width + PATCH_SIZE <= u32::MAX,
        height + PATCH_SIZE <= u32::MAX,
        is_patch_grid(width, height, patches),
        renders_patches(patches, results),
        x < width,
        y < height,
        0 <= m <= results.len(),
    ensures
        (exists|n: int| 0 <= n < flatten_patches(results.take(m)).len() && renders_at(#[trigger] flatten_patches(results.take(m))[n], x, y))
            <==> (exists|k: int| 0 <= k < m && patch_contains(#[trigger] patches[k], x as int, y as int)),
        forall|n1: int, n2: int|
            0 <= n1 < flatten_patches(results.take(m)).len() && 0 <= n2 < flatten_patches(results.take(m)).len()
                && renders_at(#[trigger] flatten_patches(results.take(m))[n1], x, y)
                && renders_at(#[trigger] flatten_patches(results.take(m))[n2], x, y) ==> n1 == n2,
    decreases m,
{
    if m > 0 {
        lemma_prefix_renders_once(width, height, patches, results, x, y, m - 1);
        let rows = results.take(m);
        assert(rows.drop_last() =~= results.take(m - 1));
        let f = flatten_patches(results.take(m - 1));
        let r = results[m - 1];
        let flat = flatten_patches(rows);
        assert(flat == f + r);
        let pos = positions(r);
        assert(lists_patch_pixels(patches[m - 1], pos));
        lemma_patch_pixels_exact(patches[m - 1], pos, x, y);
        lemma_grid_partitions_image(width, height, patches, x as int, y as int);
        // a pixel in the last patch's list is at position (x, y) exactly when the patch holds it
        assert((exists|j: int| 0 <= j < r.len() && renders_at(#[trigger] r[j], x, y)) <==> pos.contains((x, y))) by {
            if pos.contains((x, y)) {
                let j = choose|j: int| 0 <= j < pos.len() && pos[j] == (x, y);
                assert(renders_at(r[j], x, y));
            }
            if exists|j: int| 0 <= j < r.len() && renders_at(#[trigger] r[j], x, y) {
                let j = choose|j: int| 0 <= j < r.len() && renders_at(#[trigger] r[j], x, y);
                assert(pos[j] == (x, y));
            }
        }
        if exists|n: int| 0 <= n < flat.len() && renders_at(#[trigger] flat[n], x, y) {
            let n = choose|n: int| 0 <= n < flat.len() && renders_at(#[trigger] flat[n], x, y);
            if n < f.len() {
                assert(renders_at(f[n], x, y));
            } else {
                assert(renders_at(r[n - f.len()], x, y));
                assert(patch_contains(patches[m - 1], x as int, y as int));
            }
        }
        if exists|k: int| 0 <= k < m && patch_contains(#[trigger] patches[k], x as int, y as int) {
            let k = choose|k: int| 0 <= k < m && patch_contains(#[trigger] patches[k], x as int, y as int);
            if k < m - 1 {
                let n = choose|n: int| 0 <= n < f.len() && renders_at(#[trigger] f[n], x, y);
                assert(renders_at(flat[n], x, y));
            } else {
                let j = choose|j: int| 0 <= j < r.len() && renders_at(#[trigger] r[j], x, y);
                assert(renders_at(flat[f.len() + j], x, y));
            }
        }
        assert forall|n1: int, n2: int|
            0 <= n1 < flat.len() && 0 <= n2 < flat.len() && renders_at(#[trigger] flat[n1], x, y)
                && renders_at(#[trigger] flat[n2], x, y) implies n1 == n2 by {
            if n1 < f.len() && n2 < f.len() {
                assert(renders_at(f[n1], x, y) && renders_at(f[n2], x, y));
            } else if n1 >= f.len() && n2 >= f.len() {
                assert(pos[n1 - f.len()] == (x, y));
                assert(pos[n2 - f.len()] == (x, y));
            } else {
                let (a, b) = if n1 < f.len() { (n1, n2) } else { (n2, n1) };
                assert(renders_at(f[a], x, y));
                let k = choose|k: int| 0 <= k < m - 1 && patch_contains(#[trigger] patches[k], x as int, y as int);
                assert(pos[b - f.len()] == (x, y));
                assert(patch_contains(patches[m - 1], x as int, y as int));
            }
        }
    } else {
        assert(results.take(0) =~= Seq::<Seq<RenderedPixel>>::empty());
    }
}

/// Law: when every patch of the grid over a `width` x `height` image has been
/// rendered pixel by pixel in the order of `patch_pixels`, every pixel of the image
/// is rendered exactly once, and the painted picture shows the colour rendered for it.
pub proof fn lemma_rendered_grid_paints_each_pixel_once(
    width: u32,
    height: u32,
    patches: Seq<RenderPatch>,
    results: Seq<Seq<RenderedPixel>>,
    x: u32,
    y: u32,
)
    requires
        width + PATCH_SIZE <= u32::MAX,
        height + PATCH_SIZE <= u32::MAX,
        is_patch_grid(width, height, patches),
        renders_patches(patches, results),
        x < width,
        y < height,
    ensures
        exists|n: int| 0 <= n < flatten_patches(results).len() && renders_at(#[trigger] flatten_patches(results)[n], x, y),
        forall|n1: int, n2: int|
            0 <= n1 < flatten_patches(results).len() && 0 <= n2 < flatten_patches(results).len()
                && renders_at(#[trigger] flatten_patches(results)[n1], x, y)
                && renders_at(#[trigger] flatten_patches(results)[n2], x, y) ==> n1 == n2,
        forall|n: int|
            0 <= n < flatten_patches(results).len() && renders_at(#[trigger] flatten_patches(results)[n], x, y)
                ==> paint(blank(width, height), flatten_patches(results))[(x, y)] == flatten_patches(results)[n].color,
{
    lemma_prefix_renders_once(width, height, patches, results, x, y, results.len() as int);
    assert(results.take(results.len() as int) =~= results);
    lemma_grid_partitions_image(width, height, patches, x as int, y as int);
    let flat = flatten_patches(results);
    assert forall|n: int|
        0 <= n < flat.len() && renders_at(#[trigger] flat[n], x, y) implies paint(blank(width, height), flat)[(x, y)] == flat[n].color by {
        assert forall|m: int| n < m < flat.len() implies !(#[trigger] flat[m].x == flat[n].x && flat[m].y == flat[n].y) by {
            if flat[m].x == flat[n].x && flat[m].y == flat[n].y {
                assert(renders_at(flat[m], x, y));
            }
        }
        lemma_paint_last_write(blank(width, height), flat, n);
    }
}

/// No later pixel of `pixels` than the `n`-th names its position.
pub open spec fn last_at_its_position(pixels: Seq<RenderedPixel>, n: int) -> bool {
    forall|m: int| n < m < pixels.len() ==> !(#[trigger] pixels[m].x == pixels[n].x && pixels[m].y == pixels[n].y)
}

/// Some pixel of `pixels` names position `(x, y)`.
pub open spec fn named(pixels: Seq<RenderedPixel>, x: u32, y: u32) -> bool {
    exists|n: int| 0 <= n < pixels.len() && #[trigger] pixels[n].x == x && pixels[n].y == y
}

proof fn lemma_all_inside_flat(width: u32, height: u32, rows: Seq<Seq<RenderedPixel>>)
    requires
        all_inside(width, height, rows),
    ensures
        forall|n: int| 0 <= n < flatten_patches(rows).len() ==> #[trigger] flatten_patches(rows)[n].x < width
            && flatten_patches(rows)[n].y < height,
    decreases rows.len(),
{
    if rows.len() > 0 {
        let front = rows.drop_last();
        assert forall|i: int, j: int| 0 <= i < front.len() && 0 <= j < front[i].len() implies #[trigger] front[i][j].x < width
            && front[i][j].y < height by {
            assert(front[i] == rows[i]);
        }
        lemma_all_inside_flat(width, height, front);
        let f = flatten_patches(front);
        let last = rows[rows.len() - 1];
        assert(flatten_patches(rows) == f + last);
        assert forall|n: int| 0 <= n < flatten_patches(rows).len() implies #[trigger] flatten_patches(rows)[n].x < width
            && flatten_patches(rows)[n].y < height by {
            if n >= f.len() {
                assert(flatten_patches(rows)[n] == last[n - f.len()]);
                assert(rows[rows.len() - 1][n - f.len()].x < width);
            } else {
                assert(flatten_patches(rows)[n] == f[n]);
                assert(flatten_patches(front)[n].x < width);
            }
        }
    }
}

/// Law: in the bytes of a picture painted over a black one, the three bytes of the
/// position of a rendered pixel that no later pixel overwrites hold its red, green
/// and blue, at `3 * (y * width + x)` where the `image` crate reads them.
pub proof fn lemma_painted_bytes_show_last_write(img: PixelBuffer, pixels: Seq<RenderedPixel>, n: int)
    requires
        img.well_formed(),
        img.pixels() == paint(blank(img.width(), img.height()), pixels),
        forall|k: int| 0 <= k < pixels.len() ==> #[trigger] pixels[k].x < img.width() && pixels[k].y < img.height(),
        0 <= n < pixels.len(),
        last_at_its_position(pixels, n),
    ensures
        ({
            let p = pixels[n];
            let o = 3 * (p.y * img.width() + p.x);
            &&& img.bytes()[o] == p.color.r
            &&& img.bytes()[o + 1] == p.color.g
            &&& img.bytes()[o + 2] == p.color.b
        }),
{
    let p = pixels[n];
    lemma_paint_last_write(blank(img.width(), img.height()), pixels, n);
    assert(p.x < img.width() && p.y < img.height());
    assert(img.pixels()[(p.x, p.y)] == color_at(img.bytes(), img.width(), p.x, p.y));
}

/// Law: in the bytes of a picture painted over a black one, the three bytes of a
/// position that no rendered pixel names stay zero.
pub proof fn lemma_painted_bytes_unwritten_black(img: PixelBuffer, pixels: Seq<RenderedPixel>, x: u32, y: u32)
    requires
        img.well_formed(),
        img.pixels() == paint(blank(img.width(), img.height()), pixels),
        x < img.width(),
        y < img.height(),
        !named(pixels, x, y),
    ensures
        ({
            let o = 3 * (y * img.width() + x);
            &&& img.bytes()[o] == 0
            &&& img.bytes()[o + 1] == 0
            &&& img.bytes()[o + 2] == 0
        }),
{
    assert forall|k: int| 0 <= k < pixels.len() implies !(#[trigger] pixels[k].x == x && pixels[k].y == y) by {
        if pixels[k].x == x && pixels[k].y == y {
            assert(named(pixels, x, y));
        }
    }
    lemma_paint_untouched(blank(img.width(), img.height()), pixels, x, y);
    assert(img.pixels()[(x, y)] == color_at(img.bytes(), img.width(), x, y));
}

} // verus!
