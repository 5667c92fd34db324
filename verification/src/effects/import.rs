//! Decoding imported artwork, and sampling an image for a key.
//!
//! Stills and GIFs are decoded by the `image` crate from the bytes of a file;
//! the pixels it gives back are checked to be a whole image before anything
//! samples them.
//!
//! An imported image is not scaled to the key grid: each key takes the
//! average of the region of the image it physically covers, so logos and
//! pixel art stay recognisable despite the stagger. Pixels are premultiplied
//! by their alpha first, so transparent areas read as unlit. Where the region
//! lies is worked out by the caller; what the key shows is decided here.

use vstd::prelude::*;

use image::AnimationDecoder;

use crate::color::Rgb;
use crate::text::str_eq;

verus! {

/// A decoded image: `width × height` pixels, row by row, each `[r, g, b, a]`.
pub struct Pixels {
    pub width: u32,
    pub height: u32,
    pub rgba: Vec<[u8; 4]>,
}

/// The image holds exactly its pixels, and a sum of 255 per pixel fits a
/// `u64`.
pub open spec fn pixels_wf(img: Pixels) -> bool {
    &&& img.rgba@.len() == img.width as int * img.height as int
    &&& img.rgba@.len() * 255 <= u64::MAX
}

/// The pixel at column `x` of row `y`.
pub open spec fn pixel(img: Pixels, x: int, y: int) -> [u8; 4] {
    img.rgba@[y * img.width as int + x]
}

/// One channel (0 red, 1 green, 2 blue) of a pixel, scaled by its alpha.
pub open spec fn premul(p: [u8; 4], ch: int) -> int {
    (p[ch] as int * p[3] as int) / 255
}

/// Channel `ch` summed along row `y`, over columns `x0 .. x1`.
pub open spec fn row_sum(img: Pixels, y: int, x0: int, x1: int, ch: int) -> int
    decreases x1 - x0,
{
    if x1 <= x0 {
        0
    } else {
        row_sum(img, y, x0, x1 - 1, ch) + premul(pixel(img, x1 - 1, y), ch)
    }
}

/// Channel `ch` summed over rows `y0 .. y1` and columns `x0 .. x1`.
pub open spec fn rect_sum(img: Pixels, x0: int, x1: int, y0: int, y1: int, ch: int) -> int
    decreases y1 - y0,
{
    if y1 <= y0 {
        0
    } else {
        rect_sum(img, x0, x1, y0, y1 - 1, ch) + row_sum(img, y1 - 1, x0, x1, ch)
    }
}

/// Where a region `from .. to` ends once it is at least one pixel long and
/// cut off at the image's edge `limit`.
pub open spec fn region_end(from: int, to: int, limit: int) -> int {
    let end = if to > from {
        to
    } else {
        from + 1
    };
    if end < limit {
        end
    } else {
        limit
    }
}

/// What a key covering columns `x0 .. x1` and rows `y0 .. y1` shows: the
/// rounded-down mean of the premultiplied pixels in the region, which is
/// widened to at least one pixel each way and cut off at the image's edges.
/// `None` when no pixel of the image is in it.
pub open spec fn spec_average(img: Pixels, x0: u32, x1: u32, y0: u32, y1: u32) -> Option<Rgb> {
    let xe = region_end(x0 as int, x1 as int, img.width as int);
    let ye = region_end(y0 as int, y1 as int, img.height as int);
    if xe <= x0 || ye <= y0 {
        None
    } else {
        let n = (xe - x0) * (ye - y0);
        Some(
            Rgb {
                r: (rect_sum(img, x0 as int, xe, y0 as int, ye, 0) / n) as u8,
                g: (rect_sum(img, x0 as int, xe, y0 as int, ye, 1) / n) as u8,
                b: (rect_sum(img, x0 as int, xe, y0 as int, ye, 2) / n) as u8,
            },
        )
    }
}

proof fn lemma_premul_bounds(p: [u8; 4], ch: int)
    requires
        0 <= ch < 4,
    ensures
        0 <= premul(p, ch) <= 255,
{
    let c = p[ch] as int;
    let a = p[3] as int;
    assert(0 <= c * a <= 255 * 255) by (nonlinear_arith)
        requires
            0 <= c <= 255,
            0 <= a <= 255,
    ;
}

proof fn lemma_row_sum_bounds(img: Pixels, y: int, x0: int, x1: int, ch: int)
    requires
        0 <= ch < 3,
        x0 <= x1,
    ensures
        0 <= row_sum(img, y, x0, x1, ch) <= 255 * (x1 - x0),
    decreases x1 - x0,
{
    if x1 > x0 {
        lemma_row_sum_bounds(img, y, x0, x1 - 1, ch);
        lemma_premul_bounds(pixel(img, x1 - 1, y), ch);
    }
}

proof fn lemma_rect_sum_bounds(img: Pixels, x0: int, x1: int, y0: int, y1: int, ch: int)
    requires
        0 <= ch < 3,
        x0 <= x1,
        y0 <= y1,
    ensures
        0 <= rect_sum(img, x0, x1, y0, y1, ch) <= 255 * ((x1 - x0) * (y1 - y0)),
    decreases y1 - y0,
{
    if y1 > y0 {
        lemma_rect_sum_bounds(img, x0, x1, y0, y1 - 1, ch);
        lemma_row_sum_bounds(img, y1 - 1, x0, x1, ch);
        let w = x1 - x0;
        let h = y1 - y0;
        assert(w * (h - 1) + w == w * h) by (nonlinear_arith);
    }
}

/// A mean of values that are each at most 255 is at most 255.
proof fn lemma_mean_fits(sum: int, n: int)
    requires
        n > 0,
        0 <= sum <= 255 * n,
    ensures
        0 <= sum / n <= 255,
{
    assert(sum / n <= 255) by (nonlinear_arith)
        requires
            n > 0,
            0 <= sum <= 255 * n,
    ;
    assert(0 <= sum / n) by (nonlinear_arith)
        requires
            n > 0,
            0 <= sum,
    ;
}

/// The position of the pixel at column `x` of row `y` in the pixel list.
proof fn lemma_pixel_index(w: int, h: int, x: int, y: int)
    requires
        0 <= x < w,
        0 <= y < h,
    ensures
        0 <= y * w + x < w * h,
{
    assert(0 <= y * w + x < w * h) by (nonlinear_arith)
        requires
            0 <= x < w,
            0 <= y < h,
    ;
}

/// The average colour of a key's region of the image, or `None` when the
/// region holds no pixel of the image (the key then stays as it was).
pub fn average_region(img: &Pixels, x0: u32, x1: u32, y0: u32, y1: u32) -> (c: Option<Rgb>)
    requires
        pixels_wf(*img),
    ensures
        c == spec_average(*img, x0, x1, y0, y1),
{
    let x_to: u64 = if x1 > x0 {
        x1 as u64
    } else {
        x0 as u64 + 1
    };
    let y_to: u64 = if y1 > y0 {
        y1 as u64
    } else {
        y0 as u64 + 1
    };
    let xe: u64 = if x_to < img.width as u64 {
        x_to
    } else {
        img.width as u64
    };
    let ye: u64 = if y_to < img.height as u64 {
        y_to
    } else {
        img.height as u64
    };
    if xe <= x0 as u64 || ye <= y0 as u64 {
        return None;
    }
    let ghost w = img.width as int;
    let ghost h = img.height as int;
    let ghost cols = xe - x0;
    proof {
        lemma_rect_sum_bounds(*img, x0 as int, xe as int, y0 as int, ye as int, 0);
        assert(cols * (ye - y0) <= w * h) by (nonlinear_arith)
            requires
                0 < cols <= w,
                0 < ye - y0 <= h,
        ;
    }
    let mut sums: [u64; 3] = [0, 0, 0];
    let mut y: u64 = y0 as u64;
    while y < ye
        invariant
            pixels_wf(*img),
            w == img.width,
            h == img.height,
            y0 <= y <= ye <= h,
            x0 < xe <= w,
            cols == xe - x0,
            forall|ch: int|
                0 <= ch < 3 ==> sums[ch] as int == #[trigger] rect_sum(
                    *img,
                    x0 as int,
                    xe as int,
                    y0 as int,
                    y as int,
                    ch,
                ),
            cols * (y - y0) <= w * h,
            cols * (ye - y0) <= w * h,
        decreases ye - y,
    {
        let mut row: [u64; 3] = [0, 0, 0];
        let mut x: u64 = x0 as u64;
        while x < xe
            invariant
                pixels_wf(*img),
                w == img.width,
                h == img.height,
                y0 <= y < ye <= h,
                x0 <= x <= xe <= w,
                forall|ch: int|
                    0 <= ch < 3 ==> row[ch] as int == #[trigger] row_sum(
                        *img,
                        y as int,
                        x0 as int,
                        x as int,
                        ch,
                    ),
            decreases xe - x,
        {
            proof {
                lemma_pixel_index(w, h, x as int, y as int);
                lemma_row_sum_bounds(*img, y as int, x0 as int, x as int, 0);
                lemma_row_sum_bounds(*img, y as int, x0 as int, x as int, 1);
                lemma_row_sum_bounds(*img, y as int, x0 as int, x as int, 2);
                assert(row[0] as int == row_sum(*img, y as int, x0 as int, x as int, 0));
                assert(row[1] as int == row_sum(*img, y as int, x0 as int, x as int, 1));
                assert(row[2] as int == row_sum(*img, y as int, x0 as int, x as int, 2));
                assert(x + 1 - x0 <= w * h) by (nonlinear_arith)
                    requires
                        x0 <= x < w,
                        0 <= y < h,
                ;
            }
            let idx: u64 = y * (img.width as u64) + x;
            let len: usize = img.rgba.len();
            assert(idx < len);
            let p = img.rgba[idx as usize];
            assert(pixel(*img, x as int, y as int) == p);
            let a = p[3] as u64;
            proof {
                lemma_premul_bounds(p, 0);
                lemma_premul_bounds(p, 1);
                lemma_premul_bounds(p, 2);
                assert(p[0] as u64 * a <= 255 * 255) by (nonlinear_arith)
                    requires
                        p[0] <= 255,
                        a <= 255,
                ;
                assert(p[1] as u64 * a <= 255 * 255) by (nonlinear_arith)
                    requires
                        p[1] <= 255,
                        a <= 255,
                ;
                assert(p[2] as u64 * a <= 255 * 255) by (nonlinear_arith)
                    requires
                        p[2] <= 255,
                        a <= 255,
                ;
            }
            row = [
                row[0] + p[0] as u64 * a / 255,
                row[1] + p[1] as u64 * a / 255,
                row[2] + p[2] as u64 * a / 255,
            ];
            assert(row_sum(*img, y as int, x0 as int, x + 1, 0) == row[0]);
            assert(row_sum(*img, y as int, x0 as int, x + 1, 1) == row[1]);
            assert(row_sum(*img, y as int, x0 as int, x + 1, 2) == row[2]);
            x = x + 1;
        }
        proof {
            lemma_rect_sum_bounds(*img, x0 as int, xe as int, y0 as int, y as int, 0);
            lemma_rect_sum_bounds(*img, x0 as int, xe as int, y0 as int, y as int, 1);
            lemma_rect_sum_bounds(*img, x0 as int, xe as int, y0 as int, y as int, 2);
            lemma_row_sum_bounds(*img, y as int, x0 as int, xe as int, 0);
            lemma_row_sum_bounds(*img, y as int, x0 as int, xe as int, 1);
            lemma_row_sum_bounds(*img, y as int, x0 as int, xe as int, 2);
            assert(sums[0] as int == rect_sum(*img, x0 as int, xe as int, y0 as int, y as int, 0));
            assert(sums[1] as int == rect_sum(*img, x0 as int, xe as int, y0 as int, y as int, 1));
            assert(sums[2] as int == rect_sum(*img, x0 as int, xe as int, y0 as int, y as int, 2));
            assert(row[0] as int == row_sum(*img, y as int, x0 as int, xe as int, 0));
            assert(row[1] as int == row_sum(*img, y as int, x0 as int, xe as int, 1));
            assert(row[2] as int == row_sum(*img, y as int, x0 as int, xe as int, 2));
            assert(cols * (y + 1 - y0) <= w * h) by (nonlinear_arith)
                requires
                    cols * (ye - y0) <= w * h,
                    y + 1 <= ye,
                    cols > 0,
            ;
            assert(cols * (y - y0) + cols == cols * (y + 1 - y0)) by (nonlinear_arith);
        }
        sums = [sums[0] + row[0], sums[1] + row[1], sums[2] + row[2]];
        y = y + 1;
    }
    let n: u64 = (xe - x0 as u64) * (ye - y0 as u64);
    proof {
        assert(n > 0) by (nonlinear_arith)
            requires
                n == cols * (ye - y0),
                cols > 0,
                ye > y0,
        ;
        assert forall|ch: int| 0 <= ch < 3 implies 0 <= #[trigger] rect_sum(
            *img,
            x0 as int,
            xe as int,
            y0 as int,
            ye as int,
            ch,
        ) / (n as int) <= 255 by {
            lemma_rect_sum_bounds(*img, x0 as int, xe as int, y0 as int, ye as int, ch);
            lemma_mean_fits(rect_sum(*img, x0 as int, xe as int, y0 as int, ye as int, ch), n as int);
        }
        assert(sums[0] as int == rect_sum(*img, x0 as int, xe as int, y0 as int, ye as int, 0));
        assert(sums[1] as int == rect_sum(*img, x0 as int, xe as int, y0 as int, ye as int, 1));
        assert(sums[2] as int == rect_sum(*img, x0 as int, xe as int, y0 as int, ye as int, 2));
    }
    Some(Rgb { r: (sums[0] / n) as u8, g: (sums[1] / n) as u8, b: (sums[2] / n) as u8 })
}

proof fn lemma_row_sum_uniform(img: Pixels, y: int, x0: int, x1: int, ch: int, v: int)
    requires
        x0 <= x1,
        forall|x: int| x0 <= x < x1 ==> premul(#[trigger] pixel(img, x, y), ch) == v,
    ensures
        row_sum(img, y, x0, x1, ch) == v * (x1 - x0),
    decreases x1 - x0,
{
    if x1 > x0 {
        lemma_row_sum_uniform(img, y, x0, x1 - 1, ch, v);
        assert(premul(pixel(img, x1 - 1, y), ch) == v);
        assert(v * (x1 - 1 - x0) + v == v * (x1 - x0)) by (nonlinear_arith);
    } else {
        assert(v * (x1 - x0) == 0) by (nonlinear_arith)
            requires
                x1 == x0,
        ;
    }
}

proof fn lemma_rect_sum_uniform(img: Pixels, x0: int, x1: int, y0: int, y1: int, ch: int, v: int)
    requires
        x0 <= x1,
        y0 <= y1,
        forall|x: int, y: int| x0 <= x < x1 && y0 <= y < y1 ==> premul(#[trigger] pixel(img, x, y), ch) == v,
    ensures
        rect_sum(img, x0, x1, y0, y1, ch) == v * ((x1 - x0) * (y1 - y0)),
    decreases y1 - y0,
{
    if y1 > y0 {
        lemma_rect_sum_uniform(img, x0, x1, y0, y1 - 1, ch, v);
        assert forall|x: int| x0 <= x < x1 implies premul(#[trigger] pixel(img, x, y1 - 1), ch) == v by {}
        lemma_row_sum_uniform(img, y1 - 1, x0, x1, ch, v);
        let w = x1 - x0;
        let h = y1 - y0;
        assert(v * (w * (h - 1)) + v * w == v * (w * h)) by (nonlinear_arith);
    } else {
        assert(v * ((x1 - x0) * (y1 - y0)) == 0) by (nonlinear_arith)
            requires
                y1 == y0,
        ;
    }
}

/// A key over a region of one opaque colour shows exactly that colour, so a
/// solid image lights every key it covers the same.
pub proof fn lemma_uniform_region_shows_its_colour(img: Pixels, p: [u8; 4], x0: u32, x1: u32, y0: u32, y1: u32)
    requires
        pixels_wf(img),
        p[3] == 255,
        forall|i: int| 0 <= i < img.rgba@.len() ==> img.rgba@[i] == p,
        x0 < img.width,
        y0 < img.height,
    ensures
        spec_average(img, x0, x1, y0, y1) == Some(Rgb { r: p[0], g: p[1], b: p[2] }),
{
    let w = img.width as int;
    let h = img.height as int;
    let xe = region_end(x0 as int, x1 as int, w);
    let ye = region_end(y0 as int, y1 as int, h);
    assert forall|x: int, y: int| x0 <= x < xe && y0 <= y < ye implies #[trigger] pixel(img, x, y) == p by {
        lemma_pixel_index(w, h, x, y);
    }
    let n = (xe - x0) * (ye - y0);
    assert(n > 0) by (nonlinear_arith)
        requires
            n == (xe - x0) * (ye - y0),
            xe > x0,
            ye > y0,
    ;
    assert forall|ch: int| 0 <= ch < 3 implies rect_sum(img, x0 as int, xe, y0 as int, ye, ch) / n == p[ch] as int by {
        assert(premul(p, ch) == p[ch] as int) by {
            assert((p[ch] as int * 255) / 255 == p[ch] as int) by (nonlinear_arith);
        }
        assert forall|x: int, y: int| x0 <= x < xe && y0 <= y < ye implies premul(
            #[trigger] pixel(img, x, y),
            ch,
        ) == p[ch] as int by {}
        lemma_rect_sum_uniform(img, x0 as int, xe, y0 as int, ye, ch, p[ch] as int);
        assert((p[ch] as int * n) / n == p[ch] as int) by (nonlinear_arith)
            requires
                n > 0,
        ;
    }
}

/// A key over a wholly transparent region shows nothing: transparency reads
/// as unlit.
pub proof fn lemma_transparent_region_is_unlit(img: Pixels, x0: u32, x1: u32, y0: u32, y1: u32)
    requires
        pixels_wf(img),
        forall|i: int| 0 <= i < img.rgba@.len() ==> (#[trigger] img.rgba@[i])[3] == 0,
    ensures
        spec_average(img, x0, x1, y0, y1) matches Some(c) ==> c == (Rgb { r: 0, g: 0, b: 0 }),
{
    let w = img.width as int;
    let h = img.height as int;
    let xe = region_end(x0 as int, x1 as int, w);
    let ye = region_end(y0 as int, y1 as int, h);
    if xe > x0 && ye > y0 {
        let n = (xe - x0) * (ye - y0);
        assert(n > 0) by (nonlinear_arith)
            requires
                n == (xe - x0) * (ye - y0),
                xe > x0,
                ye > y0,
        ;
        assert forall|ch: int| 0 <= ch < 3 implies rect_sum(img, x0 as int, xe, y0 as int, ye, ch) / n == 0 by {
            assert forall|x: int, y: int| x0 <= x < xe && y0 <= y < ye implies premul(
                #[trigger] pixel(img, x, y),
                ch,
            ) == 0 by {
                lemma_pixel_index(w, h, x, y);
                assert(img.rgba@[y * w + x][3] == 0);
            }
            lemma_rect_sum_uniform(img, x0 as int, xe, y0 as int, ye, ch, 0);
        }
    }
}

/// Still-image formats the importer reads.
#[derive(Clone, Copy, Debug, PartialEq, Eq, Structural)]
pub enum StillFormat {
    Png,
    Jpeg,
    Bmp,
    WebP,
    Tga,
}

/// The format a lower-case file extension names, as the `image` crate maps
/// extensions: `png`, `jpg` or `jpeg`, `bmp`, `webp`, `tga`.
pub open spec fn spec_still_format(e: Seq<char>) -> Option<StillFormat> {
    if e == "png"@ {
        Some(StillFormat::Png)
    } else if e == "jpg"@ || e == "jpeg"@ {
        Some(StillFormat::Jpeg)
    } else if e == "bmp"@ {
        Some(StillFormat::Bmp)
    } else if e == "webp"@ {
        Some(StillFormat::WebP)
    } else if e == "tga"@ {
        Some(StillFormat::Tga)
    } else {
        None
    }
}

/// The still format a lower-case file extension names, if any.
pub fn still_format(e: &str) -> (f: Option<StillFormat>)
    ensures
        f == spec_still_format(e@),
{
    if str_eq(e, "png") {
        Some(StillFormat::Png)
    } else if str_eq(e, "jpg") || str_eq(e, "jpeg") {
        Some(StillFormat::Jpeg)
    } else if str_eq(e, "bmp") {
        Some(StillFormat::Bmp)
    } else if str_eq(e, "webp") {
        Some(StillFormat::WebP)
    } else if str_eq(e, "tga") {
        Some(StillFormat::Tga)
    } else {
        None
    }
}

/// What `image::load_from_memory_with_format` decodes from these bytes in
/// this format, converted to RGBA: width, height and the pixels row by row;
/// `None` when it reports an error.
pub uninterp spec fn decoded_still(bytes: Seq<u8>, format: StillFormat) -> Option<(u32, u32, Seq<[u8; 4]>)>;

/// `image::load_from_memory_with_format`, then `to_rgba8`: the result is the
/// named decoding of the bytes, or the error's text when there is none.
#[verifier::external_body]
fn load_still(bytes: &[u8], format: StillFormat) -> (r: Result<(u32, u32, Vec<[u8; 4]>), String>)
    ensures
        r is Ok <==> decoded_still(bytes@, format) is Some,
        r is Ok ==> decoded_still(bytes@, format) == Some((r->Ok_0.0, r->Ok_0.1, r->Ok_0.2@)),
{
    let format = match format {
        StillFormat::Png => image::ImageFormat::Png,
        StillFormat::Jpeg => image::ImageFormat::Jpeg,
        StillFormat::Bmp => image::ImageFormat::Bmp,
        StillFormat::WebP => image::ImageFormat::WebP,
        StillFormat::Tga => image::ImageFormat::Tga,
    };
    match image::load_from_memory_with_format(bytes, format) {
        Ok(img) => {
            let img = img.to_rgba8();
            Ok((img.width(), img.height(), img.pixels().map(|p| p.0).collect()))
        },
        Err(e) => Err(e.to_string()),
    }
}

/// One GIF frame as plain values: width, height, pixels, and the delay
/// before the next frame as a fraction of milliseconds.
pub open spec fn gif_frame_view(f: (u32, u32, Vec<[u8; 4]>, u32, u32)) -> (u32, u32, Seq<[u8; 4]>, u32, u32) {
    (f.0, f.1, f.2@, f.3, f.4)
}

/// Decoded GIF frames as plain values.
pub open spec fn gif_frames_view(v: Seq<(u32, u32, Vec<[u8; 4]>, u32, u32)>) -> Seq<(u32, u32, Seq<[u8; 4]>, u32, u32)> {
    v.map_values(|f: (u32, u32, Vec<[u8; 4]>, u32, u32)| gif_frame_view(f))
}

/// What the `image` crate's GIF decoder makes of these bytes: every frame
/// composed onto the full canvas in RGBA, with its delay as numerator and
/// denominator in milliseconds; `None` when it reports an error.
pub uninterp spec fn decoded_gif(bytes: Seq<u8>) -> Option<Seq<(u32, u32, Seq<[u8; 4]>, u32, u32)>>;

/// `GifDecoder::new` over the bytes, then `into_frames().collect_frames()`:
/// the result is the named decoding, or the error's text when there is none.
#[verifier::external_body]
fn load_gif_frames(bytes: &[u8]) -> (r: Result<Vec<(u32, u32, Vec<[u8; 4]>, u32, u32)>, String>)
    ensures
        r is Ok <==> decoded_gif(bytes@) is Some,
        r is Ok ==> decoded_gif(bytes@) == Some(gif_frames_view(r->Ok_0@)),
{
    let decoder = image::codecs::gif::GifDecoder::new(std::io::Cursor::new(bytes)).map_err(|e| e.to_string())?;
    let frames = decoder.into_frames().collect_frames().map_err(|e| e.to_string())?;
    let mut out = Vec::new();
    for f in frames {
        let (num, den) = f.delay().numer_denom_ms();
        let b = f.into_buffer();
        out.push((b.width(), b.height(), b.pixels().map(|p| p.0).collect(), num, den));
    }
    Ok(out)
}

/// Why imported artwork could not be used.
#[derive(Debug)]
pub enum DecodeError {
    /// The decoder refused the bytes; its message.
    Unreadable(String),
    /// The decoded pixels are not a whole image, or too many to sum.
    TooLarge,
}

/// Pixels that make a whole image a key can be sampled from.
pub open spec fn whole_image(w: u32, h: u32, px: Seq<[u8; 4]>) -> bool {
    px.len() == w as int * h as int && px.len() * 255 <= u64::MAX
}

/// Make an image of decoded pixels, if they are a whole one.
pub fn pixels_from(width: u32, height: u32, rgba: Vec<[u8; 4]>) -> (r: Option<Pixels>)
    ensures
        r is Some <==> whole_image(width, height, rgba@),
        r matches Some(px) ==> px.width == width && px.height == height && px.rgba@ == rgba@,
{
    let n = rgba.len() as u64;
    if n > u64::MAX / 255 {
        return None;
    }
    assert(width as int * height as int <= u64::MAX) by (nonlinear_arith)
        requires
            width <= 0xffff_ffffu32,
            height <= 0xffff_ffffu32,
    ;
    let area: u64 = width as u64 * height as u64;
    if n != area {
        return None;
    }
    Some(Pixels { width, height, rgba })
}

/// Decode a still image from the bytes of a file in the given format.
pub fn decode_still(bytes: &[u8], format: StillFormat) -> (r: Result<Pixels, DecodeError>)
    ensures
        match decoded_still(bytes@, format) {
            None => r matches Err(DecodeError::Unreadable(_)),
            Some(d) => if whole_image(d.0, d.1, d.2) {
                r matches Ok(px) && px.width == d.0 && px.height == d.1 && px.rgba@ == d.2
            } else {
                r matches Err(DecodeError::TooLarge)
            },
        },
{
    match load_still(bytes, format) {
        Err(e) => Err(DecodeError::Unreadable(e)),
        Ok((w, h, px)) => match pixels_from(w, h, px) {
            Some(img) => Ok(img),
            None => Err(DecodeError::TooLarge),
        },
    }
}

/// One decoded GIF frame: its pixels, and the delay before the next frame as
/// `delay_num / delay_den` milliseconds.
pub struct GifFrame {
    pub pixels: Pixels,
    pub delay_num: u32,
    pub delay_den: u32,
}

/// A decoded frame as plain values.
pub open spec fn frame_view(f: GifFrame) -> (u32, u32, Seq<[u8; 4]>, u32, u32) {
    (f.pixels.width, f.pixels.height, f.pixels.rgba@, f.delay_num, f.delay_den)
}

/// Frames as plain values.
pub open spec fn frames_view(v: Seq<GifFrame>) -> Seq<(u32, u32, Seq<[u8; 4]>, u32, u32)> {
    v.map_values(|f: GifFrame| frame_view(f))
}

/// Every frame is a whole image.
pub open spec fn all_whole(fs: Seq<(u32, u32, Seq<[u8; 4]>, u32, u32)>) -> bool {
    forall|i: int| 0 <= i < fs.len() ==> whole_image(#[trigger] fs[i].0, fs[i].1, fs[i].2)
}

/// Decode every frame of a GIF from the bytes of a file.
pub fn decode_gif(bytes: &[u8]) -> (r: Result<Vec<GifFrame>, DecodeError>)
    ensures
        match decoded_gif(bytes@) {
            None => r matches Err(DecodeError::Unreadable(_)),
            Some(fs) => if all_whole(fs) {
                r matches Ok(v) && frames_view(v@) == fs
            } else {
                r matches Err(DecodeError::TooLarge)
            },
        },
{
    let mut raw = match load_gif_frames(bytes) {
        Err(e) => return Err(DecodeError::Unreadable(e)),
        Ok(v) => v,
    };
    let ghost fs = gif_frames_view(raw@);
    let ghost n = raw@.len();
    let mut out: Vec<GifFrame> = Vec::new();
    assert(fs.skip(0) =~= fs);
    assert(frames_view(out@) =~= fs.take(0));
    while raw.len() > 0
        invariant
            fs.len() == n,
            raw@.len() + out@.len() == n,
            gif_frames_view(raw@) == fs.skip(out@.len() as int),
            frames_view(out@) == fs.take(out@.len() as int),
            decoded_gif(bytes@) == Some(fs),
            forall|i: int| 0 <= i < out@.len() ==> whole_image(#[trigger] fs[i].0, fs[i].1, fs[i].2),
        decreases raw@.len(),
    {
        let ghost k = out@.len() as int;
        let ghost old_raw = raw@;
        assert(gif_frames_view(old_raw)[0] == fs.skip(k)[0]);
        assert(gif_frame_view(old_raw[0]) == fs[k]);
        let (w, h, px, num, den) = raw.remove(0);
        proof {
            assert(raw@ == old_raw.remove(0));
            assert forall|j: int| 0 <= j < raw@.len() implies gif_frames_view(raw@)[j] == fs.skip(k + 1)[j] by {
                assert(raw@[j] == old_raw[j + 1]);
                assert(gif_frames_view(old_raw)[j + 1] == fs.skip(k)[j + 1]);
            }
            assert(gif_frames_view(raw@) =~= fs.skip(k + 1));
        }
        match pixels_from(w, h, px) {
            Some(img) => {
                assert(whole_image(fs[k].0, fs[k].1, fs[k].2));
                let f = GifFrame { pixels: img, delay_num: num, delay_den: den };
                let ghost before = out@;
                out.push(f);
                proof {
                    assert(out@ == before.push(f));
                    assert(frames_view(out@) =~= frames_view(before).push(frame_view(f)));
                    assert(fs.take(k + 1) =~= fs.take(k).push(fs[k]));
                }
            },
            None => {
                assert(!whole_image(fs[k].0, fs[k].1, fs[k].2));
                assert(!all_whole(fs));
                return Err(DecodeError::TooLarge);
            },
        }
    }
    assert(fs.take(n as int) =~= fs);
    assert(all_whole(fs));
    Ok(out)
}

} // verus!
