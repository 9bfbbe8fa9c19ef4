use crate::palette::{lemma_closest_idempotent, Palette};
use crate::space::ColourSpace;
use vstd::prelude::*;

verus! {

/// An RGB image with 8 bits per channel, stored row by row: the pixel at column
/// `x` and row `y` is `pixels[y * width + x]`.
#[derive(Debug, Clone)]
pub struct RgbRaster {
    pub width: u32,
    pub height: u32,
    pub pixels: Vec<[u8; 3]>,
}

impl RgbRaster {
    /// The pixel list holds exactly one pixel per position.
    pub open spec fn wf(&self) -> bool {
        self.pixels@.len() == self.width as int * self.height as int
    }

    /// A raster of the given size with every pixel set to `colour`.
    pub fn from_pixel(width: u32, height: u32, colour: [u8; 3]) -> (r: Self)
        requires
            width as int * height as int <= usize::MAX,
        ensures
            r.wf(),
            r.width == width,
            r.height == height,
            forall|i: int| 0 <= i < r.pixels@.len() ==> #[trigger] r.pixels@[i] == colour,
    {
        let n = (width as usize) * (height as usize);
        let mut pixels: Vec<[u8; 3]> = Vec::new();
        let mut i: usize = 0;
        while i < n
            invariant
                i <= n,
                pixels@.len() == i,
                forall|j: int| 0 <= j < i ==> #[trigger] pixels@[j] == colour,
            decreases n - i,
        {
            pixels.push(colour);
            i = i + 1;
        }
        RgbRaster { width, height, pixels }
    }
}

/// Every pixel replaced by its closest palette colour.
pub open spec fn quantised(pix: Seq<[u8; 3]>, pal: Palette, space: ColourSpace) -> Seq<
    [u8; 3],
> {
    pix.map_values(|p: [u8; 3]| pal.closest(space, p))
}

/// A channel `v` after receiving `weight` sixteenths of the error `err`, rounded
/// half away from zero and clamped to `0..=255`.
pub open spec fn diffuse_channel(v: int, err: int, weight: int) -> int {
    let n = 16 * v + err * weight;
    if n <= 0 {
        0
    } else if (n + 8) / 16 > 255 {
        255
    } else {
        (n + 8) / 16
    }
}

/// A pixel after receiving `weight` sixteenths of the error `old - new`, channel by
/// channel.
pub open spec fn diffuse(px: [u8; 3], old: [u8; 3], new: [u8; 3], weight: int) -> [u8; 3] {
    [
        diffuse_channel(px[0] as int, old[0] - new[0], weight) as u8,
        diffuse_channel(px[1] as int, old[1] - new[1], weight) as u8,
        diffuse_channel(px[2] as int, old[2] - new[2], weight) as u8,
    ]
}

/// The pixels after one Floyd–Steinberg step at column `x`, row `y` of a `w` by `h`
/// image: the pixel becomes its closest palette colour, and unless it lies in the
/// first or last column or the last row, its error goes to its right (7/16),
/// bottom-left (3/16), bottom (5/16) and bottom-right (1/16) neighbours.
#[verifier::opaque]
pub open spec fn dither_step(
    pix: Seq<[u8; 3]>,
    w: int,
    h: int,
    x: int,
    y: int,
    pal: Palette,
    space: ColourSpace,
) -> Seq<[u8; 3]> {
    let i = y * w + x;
    let old = pix[i];
    let new = pal.closest(space, old);
    let s = pix.update(i, new);
    if 0 < x && x < w - 1 && y < h - 1 {
        let s = s.update(i + 1, diffuse(s[i + 1], old, new, 7));
        let s = s.update(i + w - 1, diffuse(s[i + w - 1], old, new, 3));
        let s = s.update(i + w, diffuse(s[i + w], old, new, 5));
        s.update(i + w + 1, diffuse(s[i + w + 1], old, new, 1))
    } else {
        s
    }
}

/// The pixels after the first `k` steps of the scan, which runs down each column
/// (`y` inner) and then on to the next column (`x` outer).
pub open spec fn dither_prefix(
    pix: Seq<[u8; 3]>,
    w: int,
    h: int,
    k: int,
    pal: Palette,
    space: ColourSpace,
) -> Seq<[u8; 3]>
    decreases k,
{
    if k <= 0 || h <= 0 {
        pix
    } else {
        dither_step(dither_prefix(pix, w, h, k - 1, pal, space), w, h, (k - 1) / h, (k - 1) % h, pal, space)
    }
}

/// The pixels after the whole scan.
pub open spec fn dithered(pix: Seq<[u8; 3]>, w: int, h: int, pal: Palette, space: ColourSpace) -> Seq<
    [u8; 3],
> {
    dither_prefix(pix, w, h, w * h, pal, space)
}

proof fn lemma_dither_prefix_next(
    pix: Seq<[u8; 3]>,
    w: int,
    h: int,
    x: int,
    y: int,
    pal: Palette,
    space: ColourSpace,
)
    requires
        0 <= x,
        0 <= y < h,
    ensures
        dither_prefix(pix, w, h, x * h + y + 1, pal, space) == dither_step(
            dither_prefix(pix, w, h, x * h + y, pal, space),
            w,
            h,
            x,
            y,
            pal,
            space,
        ),
{
    let k = x * h + y;
    vstd::arithmetic::div_mod::lemma_fundamental_div_mod_converse(k, h, x, y);
    assert(0 <= k) by (nonlinear_arith)
        requires
            k == x * h + y,
            0 <= x,
            0 <= y < h,
    ;
    assert(k + 1 - 1 == k);
}

proof fn lemma_index_in_grid(a: int, b: int, w: int, h: int)
    requires
        0 <= a < h,
        0 <= b < w,
    ensures
        0 <= a * w + b < w * h,
{
    assert(0 <= a * w + b < w * h) by (nonlinear_arith)
        requires
            0 <= a < h,
            0 <= b < w,
    ;
}

/// One dithering step keeps the length, and where the pixel lies in the first or
/// last column or the last row it changes that pixel alone; elsewhere it changes
/// only the pixel and its right, bottom-left, bottom and bottom-right neighbours,
/// all inside the image.
pub proof fn lemma_dither_step_local(
    pix: Seq<[u8; 3]>,
    w: int,
    h: int,
    x: int,
    y: int,
    pal: Palette,
    space: ColourSpace,
)
    requires
        pix.len() == w * h,
        0 <= x < w,
        0 <= y < h,
    ensures
        dither_step(pix, w, h, x, y, pal, space).len() == pix.len(),
        (x == 0 || x == w - 1 || y == h - 1) ==> dither_step(pix, w, h, x, y, pal, space)
            == pix.update(y * w + x, pal.closest(space, pix[y * w + x])),
        !(x == 0 || x == w - 1 || y == h - 1) ==> (y + 1) * w + x + 1 < w * h,
        forall|j: int|
            0 <= j < pix.len() && j != y * w + x && j != y * w + x + 1 && j != (y + 1) * w + x - 1
                && j != (y + 1) * w + x && j != (y + 1) * w + x + 1 ==> #[trigger] dither_step(
                pix,
                w,
                h,
                x,
                y,
                pal,
                space,
            )[j] == pix[j],
{
    reveal(dither_step);
    lemma_index_in_grid(y, x, w, h);
    if !(x == 0 || x == w - 1 || y == h - 1) {
        lemma_index_in_grid(y + 1, x + 1, w, h);
        assert((y + 1) * w == y * w + w) by (nonlinear_arith);
    }
}

/// Distinct grid positions have distinct row-major indices.
proof fn lemma_grid_injective(x1: int, y1: int, x2: int, y2: int, w: int)
    requires
        0 <= x1 < w,
        0 <= x2 < w,
        0 <= y1,
        0 <= y2,
        y1 * w + x1 == y2 * w + x2,
    ensures
        x1 == x2,
        y1 == y2,
{
    vstd::arithmetic::div_mod::lemma_fundamental_div_mod_converse(y1 * w + x1, w, y1, x1);
    vstd::arithmetic::div_mod::lemma_fundamental_div_mod_converse(y2 * w + x2, w, y2, x2);
}

/// The scan position `k` lies in the grid: column `k / h`, row `k % h`.
proof fn lemma_scan_position(k: int, w: int, h: int)
    requires
        0 <= k < w * h,
        0 < h,
    ensures
        0 <= k / h < w,
        0 <= k % h < h,
        (k / h) * h + k % h == k,
{
    vstd::arithmetic::div_mod::lemma_fundamental_div_mod(k, h);
    vstd::arithmetic::div_mod::lemma_div_pos_is_pos(k, h);
    vstd::arithmetic::div_mod::lemma_mod_bound(k, h);
    let q = k / h;
    let r = k % h;
    assert(q * h + r == k) by (nonlinear_arith)
        requires
            k == h * q + r,
    ;
    assert(q < w) by (nonlinear_arith)
        requires
            q * h + r == k,
            0 <= r,
            k < w * h,
            h > 0,
    ;
}

/// The dithering steps before `k`, in an image with no interior pixel, have
/// quantised exactly the pixels scanned so far.
proof fn lemma_prefix_without_interior(
    pix: Seq<[u8; 3]>,
    w: int,
    h: int,
    k: int,
    pal: Palette,
    space: ColourSpace,
)
    requires
        0 <= w,
        0 < h,
        w <= 2 || h <= 1,
        pix.len() == w * h,
        0 <= k <= w * h,
    ensures
        dither_prefix(pix, w, h, k, pal, space).len() == pix.len(),
        forall|x: int, y: int|
            0 <= x < w && 0 <= y < h ==> #[trigger] dither_prefix(pix, w, h, k, pal, space)[y
                * w + x] == if x * h + y < k {
                pal.closest(space, pix[y * w + x])
            } else {
                pix[y * w + x]
            },
    decreases k,
{
    if k > 0 {
        let prev = dither_prefix(pix, w, h, k - 1, pal, space);
        lemma_prefix_without_interior(pix, w, h, k - 1, pal, space);
        lemma_scan_position(k - 1, w, h);
        let x0 = (k - 1) / h;
        let y0 = (k - 1) % h;
        lemma_dither_step_local(prev, w, h, x0, y0, pal, space);
        assert(dither_prefix(pix, w, h, k, pal, space) == dither_step(prev, w, h, x0, y0, pal, space));
        assert forall|x: int, y: int| 0 <= x < w && 0 <= y < h implies #[trigger] dither_prefix(
            pix,
            w,
            h,
            k,
            pal,
            space,
        )[y * w + x] == if x * h + y < k {
            pal.closest(space, pix[y * w + x])
        } else {
            pix[y * w + x]
        } by {
            lemma_index_in_grid(y, x, w, h);
            lemma_index_in_grid(y0, x0, w, h);
            if y * w + x == y0 * w + x0 {
                lemma_grid_injective(x, y, x0, y0, w);
            } else if x * h + y == k - 1 {
                lemma_grid_injective(y, x, y0, x0, h);
            }
        }
    }
}

/// In an image with no interior pixel (at most two columns, or one row) no error
/// is passed on: dithering is plain quantisation.
pub proof fn lemma_dither_without_interior(
    pix: Seq<[u8; 3]>,
    w: int,
    h: int,
    pal: Palette,
    space: ColourSpace,
)
    requires
        0 <= w,
        0 <= h,
        w <= 2 || h <= 1,
        pix.len() == w * h,
    ensures
        dithered(pix, w, h, pal, space) == quantised(pix, pal, space),
{
    if h == 0 {
        assert(pix.len() == 0) by (nonlinear_arith)
            requires
                pix.len() == w * h,
                h == 0,
        ;
        assert(quantised(pix, pal, space) =~= pix);
    } else {
        lemma_prefix_without_interior(pix, w, h, w * h, pal, space);
        let d = dithered(pix, w, h, pal, space);
        assert forall|j: int| 0 <= j < pix.len() implies d[j] == #[trigger] quantised(
            pix,
            pal,
            space,
        )[j] by {
            assert(w > 0) by (nonlinear_arith)
                requires
                    0 <= j < w * h,
                    0 <= w,
            ;
            vstd::arithmetic::div_mod::lemma_fundamental_div_mod(j, w);
            let x = j % w;
            let y = j / w;
            vstd::arithmetic::div_mod::lemma_div_pos_is_pos(j, w);
            assert(y < h) by (nonlinear_arith)
                requires
                    j == w * y + x,
                    0 <= x,
                    j < w * h,
                    w > 0,
            ;
            assert(y * w + x == j) by (nonlinear_arith)
                requires
                    j == w * y + x,
            ;
            lemma_index_in_grid(x, y, h, w);
            assert(x * h + y < w * h) by (nonlinear_arith)
                requires
                    x * h + y < h * w,
            ;
        }
        assert(d =~= quantised(pix, pal, space));
    }
}

/// Two pixel lists that agree everywhere but at index `p`.
pub open spec fn agree_except(a: Seq<[u8; 3]>, b: Seq<[u8; 3]>, p: int) -> bool {
    &&& a.len() == b.len()
    &&& forall|j: int| 0 <= j < a.len() && j != p ==> #[trigger] a[j] == b[j]
}

/// A dithering step keeps two images that differ only at an edge pixel differing
/// only there.
proof fn lemma_step_agree_except(
    s1: Seq<[u8; 3]>,
    s2: Seq<[u8; 3]>,
    w: int,
    h: int,
    x: int,
    y: int,
    px: int,
    py: int,
    pal: Palette,
    space: ColourSpace,
)
    requires
        s1.len() == w * h,
        0 <= x < w,
        0 <= y < h,
        0 <= px < w,
        0 <= py < h,
        px == 0 || px == w - 1 || py == h - 1,
        agree_except(s1, s2, py * w + px),
    ensures
        agree_except(
            dither_step(s1, w, h, x, y, pal, space),
            dither_step(s2, w, h, x, y, pal, space),
            py * w + px,
        ),
{
    lemma_index_in_grid(y, x, w, h);
    lemma_index_in_grid(py, px, w, h);
    let i = y * w + x;
    let ip = py * w + px;
    if i == ip {
        lemma_grid_injective(x, y, px, py, w);
        lemma_dither_step_local(s1, w, h, x, y, pal, space);
        lemma_dither_step_local(s2, w, h, x, y, pal, space);
    } else {
        assert(s1[i] == s2[i]);
        reveal(dither_step);
        if 0 < x && x < w - 1 && y < h - 1 {
            lemma_index_in_grid(y + 1, x + 1, w, h);
            assert((y + 1) * w == y * w + w) by (nonlinear_arith);
        }
    }
}

/// Dithering two images that differ only at one pixel in the first or last column
/// or the last row gives results that differ at most at that pixel: such a pixel
/// passes no error on, so nothing else depends on it.
pub proof fn lemma_dither_edge_independent(
    pix1: Seq<[u8; 3]>,
    pix2: Seq<[u8; 3]>,
    w: int,
    h: int,
    px: int,
    py: int,
    pal: Palette,
    space: ColourSpace,
)
    requires
        pix1.len() == w * h,
        0 <= px < w,
        0 <= py < h,
        px == 0 || px == w - 1 || py == h - 1,
        agree_except(pix1, pix2, py * w + px),
    ensures
        agree_except(dithered(pix1, w, h, pal, space), dithered(pix2, w, h, pal, space), py * w + px),
{
    assert(0 <= w * h) by (nonlinear_arith)
        requires
            0 <= px < w,
            0 <= py < h,
    ;
    lemma_prefix_agree_except(pix1, pix2, w, h, px, py, w * h, pal, space);
}

proof fn lemma_prefix_agree_except(
    pix1: Seq<[u8; 3]>,
    pix2: Seq<[u8; 3]>,
    w: int,
    h: int,
    px: int,
    py: int,
    k: int,
    pal: Palette,
    space: ColourSpace,
)
    requires
        pix1.len() == w * h,
        0 <= px < w,
        0 <= py < h,
        px == 0 || px == w - 1 || py == h - 1,
        agree_except(pix1, pix2, py * w + px),
        0 <= k <= w * h,
    ensures
        dither_prefix(pix1, w, h, k, pal, space).len() == w * h,
        agree_except(
            dither_prefix(pix1, w, h, k, pal, space),
            dither_prefix(pix2, w, h, k, pal, space),
            py * w + px,
        ),
    decreases k,
{
    if k > 0 {
        lemma_prefix_agree_except(pix1, pix2, w, h, px, py, k - 1, pal, space);
        lemma_scan_position(k - 1, w, h);
        let s1 = dither_prefix(pix1, w, h, k - 1, pal, space);
        let s2 = dither_prefix(pix2, w, h, k - 1, pal, space);
        lemma_dither_step_local(s1, w, h, (k - 1) / h, (k - 1) % h, pal, space);
        lemma_step_agree_except(s1, s2, w, h, (k - 1) / h, (k - 1) % h, px, py, pal, space);
    }
}

/// Quantising is idempotent: quantising an already quantised image changes nothing.
pub proof fn lemma_quantised_idempotent(pix: Seq<[u8; 3]>, pal: Palette, space: ColourSpace)
    requires
        pal.wf(),
    ensures
        quantised(quantised(pix, pal, space), pal, space) == quantised(pix, pal, space),
{
    assert forall|i: int| 0 <= i < pix.len() implies #[trigger] quantised(
        quantised(pix, pal, space),
        pal,
        space,
    )[i] == quantised(pix, pal, space)[i] by {
        lemma_closest_idempotent(pal, space, pix[i]);
    }
    assert(quantised(quantised(pix, pal, space), pal, space) =~= quantised(pix, pal, space));
}

/// Quantises an image to the nearest colours in the given colour space and given
/// palette.
pub fn quantise_image(buf: &mut RgbRaster, palette: &Palette, space: ColourSpace)
    requires
        old(buf).wf(),
        palette.wf(),
    ensures
        final(buf).wf(),
        final(buf).width == old(buf).width,
        final(buf).height == old(buf).height,
        final(buf).pixels@ == quantised(old(buf).pixels@, *palette, space),
{
    let n = buf.pixels.len();
    let mut i: usize = 0;
    while i < n
        invariant
            n == buf.pixels@.len() == old(buf).pixels@.len(),
            i <= n,
            buf.width == old(buf).width,
            buf.height == old(buf).height,
            palette.wf(),
            forall|j: int| 0 <= j < i ==> #[trigger] buf.pixels@[j] == palette.closest(space, old(buf).pixels@[j]),
            forall|j: int| i <= j < n ==> #[trigger] buf.pixels@[j] == old(buf).pixels@[j],
        decreases n - i,
    {
        let c = palette.closest_colour(space, &buf.pixels[i]);
        buf.pixels.set(i, c);
        i = i + 1;
    }
    proof {
        assert(buf.pixels@ =~= quantised(old(buf).pixels@, *palette, space));
    }
}

/// A channel after receiving `weight` sixteenths of the error `err`.
fn diffuse_channel_of(v: u8, err: i32, weight: i32) -> (r: u8)
    requires
        -255 <= err <= 255,
        0 <= weight <= 16,
    ensures
        r as int == diffuse_channel(v as int, err as int, weight as int),
{
    proof {
        assert(-255 * 16 <= err * weight <= 255 * 16) by (nonlinear_arith)
            requires
                -255 <= err <= 255,
                0 <= weight <= 16,
        ;
    }
    let n: i32 = 16 * (v as i32) + err * weight;
    if n <= 0 {
        0
    } else {
        let q: u32 = ((n as u32) + 8) / 16;
        if q > 255 {
            255
        } else {
            q as u8
        }
    }
}

/// A pixel after receiving `weight` sixteenths of the error `old - new`.
fn diffuse_of(px: [u8; 3], old: [u8; 3], new: [u8; 3], weight: i32) -> (r: [u8; 3])
    requires
        0 <= weight <= 16,
    ensures
        r == diffuse(px, old, new, weight as int),
{
    [
        diffuse_channel_of(px[0], (old[0] as i32) - (new[0] as i32), weight),
        diffuse_channel_of(px[1], (old[1] as i32) - (new[1] as i32), weight),
        diffuse_channel_of(px[2], (old[2] as i32) - (new[2] as i32), weight),
    ]
}

/// One Floyd–Steinberg step at column `x`, row `y`.
fn dither_pixel(
    pixels: &mut Vec<[u8; 3]>,
    w: usize,
    h: usize,
    x: usize,
    y: usize,
    palette: &Palette,
    space: ColourSpace,
)
    requires
        old(pixels)@.len() == w * h,
        x < w,
        y < h,
        palette.wf(),
    ensures
        final(pixels)@ == dither_step(old(pixels)@, w as int, h as int, x as int, y as int, *palette, space),
{
    let n = pixels.len();
    proof {
        reveal(dither_step);
        lemma_index_in_grid(y as int, x as int, w as int, h as int);
    }
    let i = y * w + x;
    let old_pixel = pixels[i];
    let new_pixel = palette.closest_colour(space, &old_pixel);
    pixels.set(i, new_pixel);
    if x > 0 && x < w - 1 && y < h - 1 {
        proof {
            lemma_index_in_grid(y as int + 1, x as int + 1, w as int, h as int);
            assert((y + 1) * w == y * w + w) by (nonlinear_arith);
        }
        let right = diffuse_of(pixels[i + 1], old_pixel, new_pixel, 7);
        pixels.set(i + 1, right);
        let bottom_left = diffuse_of(pixels[i + w - 1], old_pixel, new_pixel, 3);
        pixels.set(i + w - 1, bottom_left);
        let bottom = diffuse_of(pixels[i + w], old_pixel, new_pixel, 5);
        pixels.set(i + w, bottom);
        let bottom_right = diffuse_of(pixels[i + w + 1], old_pixel, new_pixel, 1);
        pixels.set(i + w + 1, bottom_right);
    }
}

/// Quantises an image using the given palette and colour space and applies
/// Floyd–Steinberg dithering.
pub fn quantise_and_dither_image(buf: &mut RgbRaster, palette: &Palette, space: ColourSpace)
    requires
        old(buf).wf(),
        palette.wf(),
    ensures
        final(buf).wf(),
        final(buf).width == old(buf).width,
        final(buf).height == old(buf).height,
        final(buf).pixels@ == dithered(
            old(buf).pixels@,
            old(buf).width as int,
            old(buf).height as int,
            *palette,
            space,
        ),
{
    let w = buf.width as usize;
    let h = buf.height as usize;
    let ghost orig = buf.pixels@;
    let mut x: usize = 0;
    while x < w
        invariant
            x <= w,
            w == buf.width,
            h == buf.height,
            buf.width == old(buf).width,
            buf.height == old(buf).height,
            orig == old(buf).pixels@,
            orig.len() == w * h,
            palette.wf(),
            buf.pixels@ == dither_prefix(orig, w as int, h as int, x * h, *palette, space),
            buf.pixels@.len() == w * h,
        decreases w - x,
    {
        dither_column(&mut buf.pixels, w, h, x, palette, space, Ghost(orig));
        proof {
            assert(x * h + h == (x + 1) * h) by (nonlinear_arith);
        }
        x = x + 1;
    }
}

/// The steps of the scan down column `x`.
fn dither_column(
    pixels: &mut Vec<[u8; 3]>,
    w: usize,
    h: usize,
    x: usize,
    palette: &Palette,
    space: ColourSpace,
    Ghost(orig): Ghost<Seq<[u8; 3]>>,
)
    requires
        x < w,
        orig.len() == w * h,
        palette.wf(),
        old(pixels)@ == dither_prefix(orig, w as int, h as int, x * h, *palette, space),
        old(pixels)@.len() == w * h,
    ensures
        final(pixels)@ == dither_prefix(orig, w as int, h as int, x * h + h, *palette, space),
        final(pixels)@.len() == w * h,
{
    let mut y: usize = 0;
    while y < h
        invariant
            x < w,
            y <= h,
            orig.len() == w * h,
            palette.wf(),
            pixels@ == dither_prefix(orig, w as int, h as int, x * h + y, *palette, space),
            pixels@.len() == w * h,
        decreases h - y,
    {
        proof {
            lemma_dither_prefix_next(orig, w as int, h as int, x as int, y as int, *palette, space);
        }
        let ghost before = pixels@;
        dither_pixel(pixels, w, h, x, y, palette, space);
        proof {
            lemma_dither_step_local(before, w as int, h as int, x as int, y as int, *palette, space);
        }
        y = y + 1;
    }
}

} // verus!
