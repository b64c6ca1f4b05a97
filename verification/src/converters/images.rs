//! Raster images: PNG, JPEG, WebP, BMP, TIFF and GIF.
//!
//! Images can be resized on the way, and JPEG files get a chosen quality. WebP
//! files are written without loss. Where the target has no transparency, the
//! picture is laid on a white ground.
use vstd::prelude::*;

use crate::converters;
use crate::converters::{
    ConversionError, ConvertOptions, Converter, Delivery, DeliveryView, Failure, Source, SourceView,
};
use crate::number;
use crate::outside::picture;
use crate::outside::picture::{Color, Picture, PictureFormat};
use crate::text;

verus! {

/// One name for each image format.
pub open spec fn canonical(e: Seq<char>) -> Seq<char> {
    let low = text::lower(e);
    if low == "tif"@ {
        "tiff"@
    } else if low == "jpeg"@ {
        "jpg"@
    } else {
        low
    }
}

/// The image pairs of this engine.
pub open spec fn handles(from: Seq<char>, to: Seq<char>) -> bool {
    converters::is_image(canonical(from)) && converters::is_image(canonical(to)) && canonical(from)
        != canonical(to)
}

/// One name for each image format.
pub fn normalise(ext: &str) -> (r: String)
    ensures
        r@ == canonical(ext@),
{
    let low = text::to_lower(ext);
    if text::same(low.as_str(), "tif") {
        "tiff".to_owned()
    } else if text::same(low.as_str(), "jpeg") {
        "jpg".to_owned()
    } else {
        low
    }
}

/// Returns `true` for image pairs handled by this engine.
pub fn supports(from: &str, to: &str) -> (r: bool)
    ensures
        r == handles(from@, to@),
{
    let f = normalise(from);
    let t = normalise(to);
    converters::image_ext(f.as_str()) && converters::image_ext(t.as_str()) && !text::same(
        f.as_str(),
        t.as_str(),
    )
}

/// The target list of an image source, in display order.
pub open spec fn targets(from: Seq<char>) -> Seq<Seq<char>> {
    text::without(seq!["png"@, "jpg"@, "webp"@, "bmp"@, "tiff"@, "gif"@], canonical(from))
}

/// Target list for an image source extension, in display order.
pub fn targets_for(from: &str) -> (r: Vec<String>)
    ensures
        r.deep_view() == targets(from@),
{
    let f = normalise(from);
    let list = vec![
        "png".to_owned(),
        "jpg".to_owned(),
        "webp".to_owned(),
        "bmp".to_owned(),
        "tiff".to_owned(),
        "gif".to_owned(),
    ];
    assert(list.deep_view() =~= seq!["png"@, "jpg"@, "webp"@, "bmp"@, "tiff"@, "gif"@]);
    text::leave_out(list, f.as_str())
}

// ---------------------------------------------------------------------------
// Formats and sizes
// ---------------------------------------------------------------------------

/// The format that an extension stands for.
pub open spec fn format_of(e: Seq<char>) -> Option<PictureFormat> {
    let low = text::lower(e);
    if low == "png"@ {
        Some(PictureFormat::Png)
    } else if low == "jpg"@ || low == "jpeg"@ {
        Some(PictureFormat::Jpeg)
    } else if low == "webp"@ {
        Some(PictureFormat::WebP)
    } else if low == "bmp"@ {
        Some(PictureFormat::Bmp)
    } else if low == "tiff"@ || low == "tif"@ {
        Some(PictureFormat::Tiff)
    } else if low == "gif"@ {
        Some(PictureFormat::Gif)
    } else {
        None
    }
}

/// The format that an extension stands for.
pub fn image_format_for(ext: &str) -> (r: Option<PictureFormat>)
    ensures
        r == format_of(ext@),
{
    let low = text::to_lower(ext);
    let e = low.as_str();
    if text::same(e, "png") {
        Some(PictureFormat::Png)
    } else if text::same(e, "jpg") || text::same(e, "jpeg") {
        Some(PictureFormat::Jpeg)
    } else if text::same(e, "webp") {
        Some(PictureFormat::WebP)
    } else if text::same(e, "bmp") {
        Some(PictureFormat::Bmp)
    } else if text::same(e, "tiff") || text::same(e, "tif") {
        Some(PictureFormat::Tiff)
    } else if text::same(e, "gif") {
        Some(PictureFormat::Gif)
    } else {
        None
    }
}

/// How the options change the size of an image.
#[derive(Debug, Clone, Copy, PartialEq, Eq, Structural)]
pub enum Resize {
    /// The image keeps its size.
    Keep,
    /// Both sides are given.
    Exact(u32, u32),
    /// One side is given or both are limits; the proportions stay.
    Within(u32, u32),
}

/// How the options change the size: a side of zero counts as not given, and
/// with one side given the other follows from it.
pub open spec fn resize_asked(opts: ConvertOptions) -> Resize {
    let w = opts.resize_width;
    let h = opts.resize_height;
    if w is Some && w->0 > 0 {
        if h is Some && h->0 > 0 {
            Resize::Exact(w->0, h->0)
        } else {
            Resize::Within(w->0, u32::MAX)
        }
    } else if h is Some && h->0 > 0 {
        Resize::Within(u32::MAX, h->0)
    } else {
        Resize::Keep
    }
}

/// How the options change the size of an image.
pub fn resize_of(opts: &ConvertOptions) -> (r: Resize)
    ensures
        r == resize_asked(*opts),
{
    match (opts.resize_width, opts.resize_height) {
        (Some(w), Some(h)) => {
            if w > 0 && h > 0 {
                Resize::Exact(w, h)
            } else if w > 0 {
                Resize::Within(w, u32::MAX)
            } else if h > 0 {
                Resize::Within(u32::MAX, h)
            } else {
                Resize::Keep
            }
        },
        (Some(w), None) => {
            if w > 0 {
                Resize::Within(w, u32::MAX)
            } else {
                Resize::Keep
            }
        },
        (None, Some(h)) => {
            if h > 0 {
                Resize::Within(u32::MAX, h)
            } else {
                Resize::Keep
            }
        },
        (None, None) => Resize::Keep,
    }
}

/// Whether the picture can take the size at all.
pub open spec fn can_resize(p: Picture, how: Resize) -> bool {
    match how {
        Resize::Keep => true,
        Resize::Exact(w, h) => picture::can_stretch(p, w, h),
        Resize::Within(w, h) => picture::can_scale(p, w, h),
    }
}

/// Whether a picture is another one in its new size.
pub open spec fn is_resized(p: Picture, how: Resize, q: Picture) -> bool {
    match how {
        Resize::Keep => q == p,
        Resize::Exact(w, h) => picture::is_stretch(p, w, h, q) && q.width == w && q.height == h
            && q.color == p.color && picture::is_whole(q),
        Resize::Within(w, h) => picture::is_scale(p, w, h, q) && picture::fits_within(p, w, h, q)
            && q.color == p.color && picture::is_whole(q),
    }
}

fn room(width: u64, height: u64) -> (r: bool)
    requires
        width <= 0x1_0000_0000,
        height <= 0x1_0000_0000,
    ensures
        r == picture::has_room(width as int, height as int),
{
    proof {
        assert(width * height <= 0x1_0000_0000 * 0x1_0000_0000) by (nonlinear_arith)
            requires
                0 <= width <= 0x1_0000_0000,
                0 <= height <= 0x1_0000_0000,
        ;
    }
    let pixels: u128 = (width as u128) * (height as u128);
    16 * pixels <= isize::MAX as u128
}

/// One side of a scaled picture: its share of the limit, rounded up unless
/// `bound` comes first.
fn scaled_side(old: u32, limit: u32, other: u32, bound: u32) -> (r: u64)
    ensures
        r == (if picture::share(old, limit, other, bound) < bound {
            picture::share(old, limit, other, bound) + 1
        } else {
            bound as int
        }),
        r <= 0x1_0000_0000,
{
    proof {
        assert(old * limit <= 0xffff_ffff * 0xffff_ffff) by (nonlinear_arith)
            requires
                0 <= old <= 0xffff_ffff,
                0 <= limit <= 0xffff_ffff,
        ;
    }
    let side: u64 = if other > 0 {
        (old as u64) * (limit as u64) / (other as u64)
    } else if old > 0 {
        bound as u64
    } else {
        0
    };
    if side < bound as u64 {
        side + 1
    } else {
        bound as u64
    }
}

/// The bytes of one pixel.
fn bytes_per_pixel(color: Color) -> (r: u128)
    ensures
        r == picture::pixel_bytes(color),
        r <= 16,
{
    match color {
        Color::L8 => 1,
        Color::La8 => 2,
        Color::Rgb8 => 3,
        Color::Rgba8 => 4,
        Color::L16 => 2,
        Color::La16 => 4,
        Color::Rgb16 => 6,
        Color::Rgba16 => 8,
        Color::Rgb32F => 12,
        Color::Rgba32F => 16,
        Color::Other => 0,
    }
}

/// Whether an image has the samples of its pixels and no more.
fn whole(img: &image::DynamicImage) -> (r: bool)
    ensures
        r == picture::is_whole(picture::picture_held(*img)),
{
    let w = picture::width_of(img);
    let h = picture::height_of(img);
    let color = picture::color_of(img);
    if color == Color::Other || !room(w as u64, h as u64) {
        return false;
    }
    let one = bytes_per_pixel(color);
    proof {
        assert(one * (w * h) <= 16 * (w * h)) by (nonlinear_arith)
            requires
                0 <= one <= 16,
                0 <= w,
                0 <= h,
        ;
    }
    let pixels: u128 = (w as u128) * (h as u128);
    picture::bytes_of(img) as u128 == one * pixels
}

/// Whether an image can be sampled to a size.
fn samples_to(img: &image::DynamicImage, width: u64, height: u64) -> (r: bool)
    requires
        width <= 0x1_0000_0000,
        height <= 0x1_0000_0000,
    ensures
        r == picture::can_sample(picture::picture_held(*img), width as int, height as int),
{
    let longest = picture::LONGEST_SIDE;
    let old_w = picture::width_of(img);
    let old_h = picture::height_of(img);
    old_w <= longest && old_h <= longest && width <= longest as u64 && height <= longest as u64
        && room(old_w as u64, height) && room(width, height)
}

/// Gives the picture its new size, if it can take it.
fn resize_image(img: image::DynamicImage, how: Resize) -> (r: Option<image::DynamicImage>)
    requires
        how matches Resize::Exact(w, h) ==> w > 0 && h > 0,
        how matches Resize::Within(w, h) ==> w > 0 && h > 0,
        picture::is_whole(picture::picture_held(img)),
    ensures
        match r {
            Some(out) => can_resize(picture::picture_held(img), how) && is_resized(
                picture::picture_held(img),
                how,
                picture::picture_held(out),
            ) && picture::is_whole(picture::picture_held(out)),
            None => !can_resize(picture::picture_held(img), how),
        },
{
    match how {
        Resize::Keep => Some(img),
        Resize::Exact(w, h) => {
            let same = w == picture::width_of(&img) && h == picture::height_of(&img);
            if same || samples_to(&img, w as u64, h as u64) {
                Some(picture::stretch(&img, w, h))
            } else {
                None
            }
        },
        Resize::Within(w, h) => {
            let old_w = picture::width_of(&img);
            let old_h = picture::height_of(&img);
            let new_w = scaled_side(old_w, h, old_h, w);
            let new_h = scaled_side(old_h, w, old_w, h);
            if samples_to(&img, new_w, new_h) {
                Some(picture::scale(&img, w, h))
            } else {
                None
            }
        },
    }
}

// ---------------------------------------------------------------------------
// Transparency
// ---------------------------------------------------------------------------

/// Whether the picture has transparency that the format cannot hold.
pub open spec fn must_flatten(format: PictureFormat, color: Color) -> bool {
    (format == PictureFormat::Jpeg || format == PictureFormat::Bmp) && (color == Color::Rgba8
        || color == Color::Rgba16 || color == Color::Rgba32F || color == Color::La8 || color
        == Color::La16)
}

/// Whether the picture has transparency that the format cannot hold.
pub fn needs_flatten(format: PictureFormat, color: Color) -> (r: bool)
    ensures
        r == must_flatten(format, color),
{
    match format {
        PictureFormat::Jpeg | PictureFormat::Bmp => match color {
            Color::Rgba8 | Color::Rgba16 | Color::Rgba32F | Color::La8 | Color::La16 => true,
            _ => false,
        },
        _ => false,
    }
}

/// One, in units of the last place of the smallest opacity.
pub const ONE: u128 = 0x8000_0000;

/// How many significands a single precision number has.
pub const SIGNIFICANDS: u128 = 0x100_0000;

/// A multiple of the unit, rounded to single precision.
pub open spec fn single(n: nat) -> nat {
    number::nearest(n, 1, SIGNIFICANDS as nat)
}

/// A sample of the given opacity over white: `sample * a + 255 * (1 - a)` for
/// `a = alpha / 255`, with each step rounded to single precision, and the sum
/// rounded down.
pub open spec fn over_white(sample: u8, alpha: u8) -> u8 {
    let a = number::nearest(alpha as nat * ONE as nat, 255, SIGNIFICANDS as nat);
    let rest = single((ONE - a) as nat);
    let sum = single(single(sample as nat * a) + single(255 * rest));
    let whole = sum / (ONE as nat);
    if whole < 255 {
        whole as u8
    } else {
        255
    }
}

/// No opacity is more than one.
pub proof fn lemma_opacity(alpha: u8)
    ensures
        number::nearest(alpha as nat * ONE as nat, 255, SIGNIFICANDS as nat) <= ONE,
{
    let n = alpha as nat * ONE as nat;
    let step = SIGNIFICANDS as nat * 255;
    reveal_with_fuel(number::spacing, 9);
    let s = number::spacing(n, step, 1);
    assert(s == 1 || s == 2 || s == 4 || s == 8 || s == 16 || s == 32 || s == 64 || s == 128 || s
        == 256);
    assert(ONE as nat % s == 0);
    number::lemma_nearest_bound(n, 255, SIGNIFICANDS as nat, ONE as nat);
}

/// Lays a sample of the given opacity on white.
pub fn blended(sample: u8, alpha: u8) -> (r: u8)
    ensures
        r == over_white(sample, alpha),
{
    proof {
        lemma_opacity(alpha);
    }
    let a = number::nearest_to((alpha as u128) * ONE, 255, SIGNIFICANDS);
    let rest = number::nearest_to(ONE - a, 1, SIGNIFICANDS);
    proof {
        assert(sample * a <= 255 * 0x8000_0000) by (nonlinear_arith)
            requires
                sample <= 255,
                0 <= a <= 0x8000_0000,
        ;
        assert((sample * a) as nat == sample as nat * a as nat);
    }
    let colour = number::nearest_to((sample as u128) * a, 1, SIGNIFICANDS);
    let ground = number::nearest_to(255 * rest, 1, SIGNIFICANDS);
    let sum = number::nearest_to(colour + ground, 1, SIGNIFICANDS);
    let whole = sum / ONE;
    if whole < 255 {
        whole as u8
    } else {
        255
    }
}

proof fn lemma_single(k: nat)
    requires
        k <= 255,
    ensures
        single(k * ONE as nat) == k * ONE as nat,
{
    let n = k * ONE as nat;
    reveal_with_fuel(number::spacing, 17);
    let s = number::spacing(n, SIGNIFICANDS as nat, 1);
    assert(s == 1 || s == 2 || s == 4 || s == 8 || s == 16 || s == 32 || s == 64 || s == 128 || s
        == 256 || s == 512 || s == 1024 || s == 2048 || s == 4096 || s == 8192 || s == 16384 || s
        == 32768);
    assert(n % s == 0);
    number::lemma_nearest_exact(n, SIGNIFICANDS as nat);
}

/// A fully opaque sample stays what it is, and a fully transparent one gives
/// way to white.
pub proof fn law_opacity_ends(sample: u8)
    ensures
        over_white(sample, 255) == sample,
        over_white(sample, 0) == 255,
{
    let one = ONE as nat;
    lemma_single(0);
    lemma_single(1);
    lemma_single(255);
    lemma_single(sample as nat);
    assert(number::nearest(0, 255, SIGNIFICANDS as nat) == 0) by {
        assert(number::spacing(0, SIGNIFICANDS as nat * 255, 1) == 1);
    }
    assert(number::nearest(255 * one, 255, SIGNIFICANDS as nat) == one) by {
        reveal_with_fuel(number::spacing, 9);
        assert(number::spacing(255 * one, SIGNIFICANDS as nat * 255, 1) == 256);
        assert(number::round_div(255 * one, 255 * 256) == 0x80_0000);
    }
    assert(sample as nat * 0 == 0);
}

/// The samples of a picture laid on white: three for each group of four.
pub open spec fn opaque_bytes(rgba: Seq<u8>) -> Seq<u8> {
    Seq::new(
        rgba.len() / 4 * 3,
        |i: int| over_white(rgba[(i / 3) * 4 + i % 3], rgba[(i / 3) * 4 + 3]),
    )
}

/// The blended samples for every opacity, 256 for each.
fn blend_table() -> (r: Vec<u8>)
    ensures
        r@.len() == 0x1_0000,
        forall|i: int|
            0 <= i < 0x1_0000 ==> #[trigger] r@[i] == over_white((i % 256) as u8, (i / 256) as u8),
{
    let mut out: Vec<u8> = Vec::new();
    for i in 0..0x1_0000u32
        invariant
            out@.len() == i,
            forall|k: int|
                0 <= k < i ==> #[trigger] out@[k] == over_white((k % 256) as u8, (k / 256) as u8),
    {
        out.push(blended((i % 256) as u8, (i / 256) as u8));
    }
    out
}

/// Lays pixels of four samples each on white.
pub fn flatten_pixels(rgba: &Vec<u8>) -> (r: Vec<u8>)
    requires
        rgba@.len() % 4 == 0,
    ensures
        r@ == opaque_bytes(rgba@),
{
    let table = blend_table();
    let mut out: Vec<u8> = Vec::new();
    let len = rgba.len();
    let n = len / 4;
    for i in 0..n
        invariant
            len == rgba@.len(),
            n == len / 4,
            table@.len() == 0x1_0000,
            forall|k: int|
                0 <= k < 0x1_0000 ==> #[trigger] table@[k] == over_white(
                    (k % 256) as u8,
                    (k / 256) as u8,
                ),
            out@.len() == 3 * i,
            forall|k: int|
                0 <= k < 3 * i ==> #[trigger] out@[k] == over_white(
                    rgba@[(k / 3) * 4 + k % 3],
                    rgba@[(k / 3) * 4 + 3],
                ),
    {
        let at = 4 * i;
        let row = (rgba[at + 3] as usize) * 256;
        out.push(table[row + rgba[at] as usize]);
        out.push(table[row + rgba[at + 1] as usize]);
        out.push(table[row + rgba[at + 2] as usize]);
    }
    assert(out@ =~= opaque_bytes(rgba@));
    out
}

/// A picture laid on white.
pub open spec fn flattened(p: Picture) -> Picture {
    Picture {
        width: p.width,
        height: p.height,
        color: Color::Rgb8,
        space: 0,
        samples: opaque_bytes(picture::rgba_bytes(p)).map_values(|b: u8| b as int),
        bytes: opaque_bytes(picture::rgba_bytes(p)).len(),
    }
}

/// Lays an image on white.
fn flatten(img: &image::DynamicImage) -> (r: image::DynamicImage)
    requires
        picture::is_whole(picture::picture_held(*img)),
    ensures
        picture::picture_held(r) == flattened(picture::picture_held(*img)),
        picture::is_whole(picture::picture_held(r)),
{
    let rgba = picture::to_rgba(img);
    let w = picture::width_of(img);
    let h = picture::height_of(img);
    let rgb = flatten_pixels(&rgba);
    picture::from_rgb(w, h, rgb).unwrap()
}

// ---------------------------------------------------------------------------
// Conversion
// ---------------------------------------------------------------------------

/// The JPEG quality within its bounds.
pub open spec fn quality_within(q: u8) -> u8 {
    if q < 1 {
        1
    } else if q > 100 {
        100
    } else {
        q
    }
}

/// The picture as it is written: laid on white where the format has no
/// transparency.
pub open spec fn prepared(p: Picture, format: PictureFormat) -> Picture {
    if must_flatten(format, p.color) {
        flattened(p)
    } else {
        p
    }
}

/// Whether bytes are the file of a picture, or a text is why there is none.
pub open spec fn is_written(
    p: Picture,
    format: PictureFormat,
    quality: u8,
    r: Result<Seq<u8>, Seq<char>>,
) -> bool {
    if format == PictureFormat::Jpeg {
        r == picture::jpeg_bytes(p, quality_within(quality))
    } else {
        match r {
            Ok(bytes) => picture::file_refused(p, format) is None && picture::is_picture_file(
                p,
                format,
                bytes,
            ),
            Err(reason) => picture::file_refused(p, format) == Some(reason),
        }
    }
}

/// Whether a result is right for an image of the right size.
pub open spec fn sized_allows(
    p: Picture,
    format: PictureFormat,
    output: Seq<char>,
    quality: u8,
    r: Result<Seq<u8>, Failure>,
) -> bool {
    match r {
        Ok(bytes) => is_written(prepared(p, format), format, quality, Ok(bytes)),
        Err(Failure::UnwritableOutput { path, reason }) => path == output && is_written(
            prepared(p, format),
            format,
            quality,
            Err(reason),
        ),
        Err(_) => false,
    }
}

/// Whether a result is right for an image that was decoded or not: without a
/// change of size there is one, otherwise one for each way to resize it.
pub open spec fn decoded_allows(
    input: Seq<char>,
    content: Result<Picture, Seq<char>>,
    output: Seq<char>,
    opts: ConvertOptions,
    r: Result<Seq<u8>, Failure>,
) -> bool {
    let from = converters::ext(input);
    let to = converters::ext(output);
    match format_of(to) {
        None => r == Err::<Seq<u8>, _>(Failure::UnsupportedConversion { from, to }),
        Some(format) => match content {
            Err(reason) => r == Err::<Seq<u8>, _>(
                Failure::MalformedData { path: input, format: "image ("@ + from + ")"@, reason },
            ),
            Ok(p) => {
                let how = resize_asked(opts);
                if !picture::is_whole(p) {
                    r == Err::<Seq<u8>, _>(
                        Failure::MalformedData {
                            path: input,
                            format: "image ("@ + from + ")"@,
                            reason: "the image data does not match its size"@,
                        },
                    )
                } else if can_resize(p, how) {
                    exists|q: Picture|
                        #![trigger is_resized(p, how, q)]
                        is_resized(p, how, q) && sized_allows(
                            q,
                            format,
                            output,
                            opts.jpeg_quality,
                            r,
                        )
                } else {
                    r == Err::<Seq<u8>, _>(
                        Failure::UnwritableOutput {
                            path: output,
                            reason: "the image cannot take the requested size"@,
                        },
                    )
                }
            },
        },
    }
}

/// The failure to write an image.
fn not_written(output: &str, reason: String) -> (r: ConversionError)
    ensures
        r.deep_view() == (Failure::UnwritableOutput { path: output@, reason: reason@ }),
{
    ConversionError::UnwritableOutput { path: output.to_owned(), reason }
}

/// The failure to read an image.
fn not_decoded(input: &str, from: &str, reason: String) -> (r: ConversionError)
    ensures
        r.deep_view() == (Failure::MalformedData {
            path: input@,
            format: "image ("@ + from@ + ")"@,
            reason: reason@,
        }),
{
    let name = text::cat3("image (", from, ")");
    ConversionError::MalformedData { path: input.to_owned(), format: name, reason }
}

/// Writes a picture in a format.
fn write_picture(img: &image::DynamicImage, format: PictureFormat, quality: u8) -> (r: Result<
    Vec<u8>,
    String,
>)
    requires
        picture::is_whole(picture::picture_held(*img)),
    ensures
        is_written(picture::picture_held(*img), format, quality, picture::encoded_view(r)),
{
    match format {
        PictureFormat::Jpeg => {
            let q: u8 = if quality < 1 {
                1
            } else if quality > 100 {
                100
            } else {
                quality
            };
            picture::encode_jpeg(img, q)
        },
        _ => picture::encode(img, format),
    }
}

/// Converts an image of the right size.
fn convert_sized(
    sized: image::DynamicImage,
    format: PictureFormat,
    output: &str,
    quality: u8,
) -> (r: Result<Vec<u8>, ConversionError>)
    requires
        picture::is_whole(picture::picture_held(sized)),
    ensures
        sized_allows(
            picture::picture_held(sized),
            format,
            output@,
            quality,
            converters::bytes_result(r),
        ),
{
    let ready = if needs_flatten(format, picture::color_of(&sized)) {
        flatten(&sized)
    } else {
        sized
    };
    match write_picture(&ready, format, quality) {
        Ok(bytes) => Ok(bytes),
        Err(reason) => Err(not_written(output, reason)),
    }
}

/// Converts an image that was decoded, or reports why it was not.
pub fn convert_image(
    input: &str,
    content: Result<image::DynamicImage, String>,
    output: &str,
    opts: &ConvertOptions,
) -> (r: Result<Vec<u8>, ConversionError>)
    ensures
        decoded_allows(
            input@,
            converters::picture_view(content),
            output@,
            *opts,
            converters::bytes_result(r),
        ),
{
    let from = converters::extension_of(input);
    let to = converters::extension_of(output);
    let format = match image_format_for(to.as_str()) {
        Some(f) => f,
        None => return Err(ConversionError::UnsupportedConversion { from, to }),
    };
    let img = match content {
        Ok(img) => img,
        Err(reason) => return Err(not_decoded(input, from.as_str(), reason)),
    };
    if !whole(&img) {
        let reason = "the image data does not match its size".to_owned();
        return Err(not_decoded(input, from.as_str(), reason));
    }
    let sized = match resize_image(img, resize_of(opts)) {
        Some(s) => s,
        None => {
            let reason = "the image cannot take the requested size".to_owned();
            return Err(not_written(output, reason));
        },
    };
    let r = convert_sized(sized, format, output, opts.jpeg_quality);
    assert(is_resized(
        picture::picture_held(content->Ok_0),
        resize_asked(*opts),
        picture::picture_held(sized),
    ));
    r
}

/// Whether a result is right for an image file.
pub open spec fn file_allows(
    input: Seq<char>,
    source: SourceView,
    output: Seq<char>,
    opts: ConvertOptions,
    r: Result<DeliveryView, Failure>,
) -> bool {
    match r {
        Ok(DeliveryView::Bytes(bytes)) => decoded_allows(
            input,
            source.picture,
            output,
            opts,
            Ok(bytes),
        ),
        Ok(_) => false,
        Err(f) => decoded_allows(input, source.picture, output, opts, Err(f)),
    }
}

/// The engine for images.
pub struct ImageConverter;

impl Converter for ImageConverter {
    open spec fn allows(
        &self,
        input: Seq<char>,
        source: SourceView,
        output: Seq<char>,
        opts: ConvertOptions,
        r: Result<DeliveryView, Failure>,
    ) -> bool {
        file_allows(input, source, output, opts, r)
    }

    fn convert(&self, input: &str, source: Source, output: &str, opts: &ConvertOptions) -> (r:
        Result<Delivery, ConversionError>) {
        match convert_image(input, source.picture, output, opts) {
            Ok(bytes) => Ok(Delivery::Bytes(bytes)),
            Err(e) => Err(e),
        }
    }
}

} // verus!
