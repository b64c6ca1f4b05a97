//! What an image becomes in another format.
use vstd::prelude::*;

use crate::converters;
use crate::converters::images;
use crate::converters::images::Resize;
use crate::converters::names;
use crate::converters::{ConvertOptions, Failure};
use crate::number;
use crate::number_laws;
use crate::outside::picture;
use crate::outside::picture::{Color, Picture, PictureFormat};
use crate::text;

verus! {

// ---------------------------------------------------------------------------
// Formats
// ---------------------------------------------------------------------------

/// An extension stands for the format that it is the name of.
pub proof fn law_formats_by_name(e: Seq<char>)
    ensures
        images::format_of(e) == Some(PictureFormat::Png) <==> text::lower(e) == "png"@,
        images::format_of(e) == Some(PictureFormat::Jpeg) <==> text::lower(e) == "jpg"@
            || text::lower(e) == "jpeg"@,
        images::format_of(e) == Some(PictureFormat::WebP) <==> text::lower(e) == "webp"@,
        images::format_of(e) == Some(PictureFormat::Bmp) <==> text::lower(e) == "bmp"@,
        images::format_of(e) == Some(PictureFormat::Tiff) <==> text::lower(e) == "tiff"@
            || text::lower(e) == "tif"@,
        images::format_of(e) == Some(PictureFormat::Gif) <==> text::lower(e) == "gif"@,
        images::format_of(e) is Some <==> converters::is_image(text::lower(e)),
{
    names::lemma_image_names();
}

/// Two extensions stand for one format only where they are names of one.
pub proof fn law_formats_differ(a: Seq<char>, b: Seq<char>)
    requires
        images::format_of(a) is Some,
        images::format_of(b) is Some,
    ensures
        images::format_of(a) == images::format_of(b) <==> images::canonical(a)
            == images::canonical(b),
        images::format_of(images::canonical(a)) == images::format_of(a),
{
    names::lemma_image_names();
    converters::laws::lemma_lower_twice(a);
}

/// The other name of TIFF and of JPEG is taken for the first one; every other
/// name is only put in small letters.
pub proof fn law_canonical_names(e: Seq<char>)
    ensures
        text::lower(e) == "tif"@ ==> images::canonical(e) == "tiff"@,
        text::lower(e) == "jpeg"@ ==> images::canonical(e) == "jpg"@,
        text::lower(e) != "tif"@ && text::lower(e) != "jpeg"@ ==> images::canonical(e)
            == text::lower(e),
{
    names::lemma_image_names();
}

/// The images of this engine are converted into each other, and none into its
/// own format.
pub proof fn law_image_pairs(from: Seq<char>, to: Seq<char>)
    ensures
        images::handles(from, to) <==> images::format_of(from) is Some && images::format_of(to) is
            Some && images::format_of(from) != images::format_of(to),
{
    names::lemma_image_names();
    if images::format_of(from) is Some && images::format_of(to) is Some {
        law_formats_differ(from, to);
    }
}

/// Every other format is on offer, once.
pub proof fn law_image_targets(from: Seq<char>, to: Seq<char>)
    requires
        images::format_of(from) is Some,
    ensures
        images::targets(from).contains(to) <==> (to == "png"@ || to == "jpg"@ || to == "webp"@ || to
            == "bmp"@ || to == "tiff"@ || to == "gif"@) && images::format_of(from)
            != images::format_of(to),
        images::targets(from).no_duplicates(),
{
    names::lemma_image_names();
    let all = seq!["png"@, "jpg"@, "webp"@, "bmp"@, "tiff"@, "gif"@];
    text::lemma_without(all, images::canonical(from));
    assert(all.no_duplicates());
    assert(all[0] == "png"@ && all[1] == "jpg"@ && all[2] == "webp"@ && all[3] == "bmp"@ && all[4]
        == "tiff"@ && all[5] == "gif"@);
    assert(all.contains(to) <==> (to == "png"@ || to == "jpg"@ || to == "webp"@ || to == "bmp"@
        || to == "tiff"@ || to == "gif"@)) by {
        if all.contains(to) {
            let i = choose|i: int| 0 <= i < all.len() && all[i] == to;
            assert(i == 0 || i == 1 || i == 2 || i == 3 || i == 4 || i == 5);
        }
    }
    if all.contains(to) {
        law_formats_differ(from, to);
        assert(images::canonical(to) == to);
    }
}

// ---------------------------------------------------------------------------
// Files
// ---------------------------------------------------------------------------

/// Whether bytes are a file of some picture in the format that a name stands
/// for.
pub open spec fn is_file_named(e: Seq<char>, p: Picture, quality: u8, bytes: Seq<u8>) -> bool {
    if e == "jpg"@ || e == "jpeg"@ {
        picture::jpeg_bytes(p, quality) == Ok::<_, Seq<char>>(bytes)
    } else if e == "png"@ {
        picture::is_picture_file(p, PictureFormat::Png, bytes)
    } else if e == "webp"@ {
        picture::is_picture_file(p, PictureFormat::WebP, bytes)
    } else if e == "bmp"@ {
        picture::is_picture_file(p, PictureFormat::Bmp, bytes)
    } else if e == "gif"@ {
        picture::is_picture_file(p, PictureFormat::Gif, bytes)
    } else {
        (e == "tiff"@ || e == "tif"@) && picture::is_picture_file(p, PictureFormat::Tiff, bytes)
    }
}

/// Whether pixels may be see-through.
pub open spec fn has_alpha(color: Color) -> bool {
    match color {
        Color::La8 | Color::Rgba8 | Color::La16 | Color::Rgba16 | Color::Rgba32F => true,
        _ => false,
    }
}

/// A picture whose size is kept is written as it is, in the format that the
/// output is named after; only where that format knows no transparency and the
/// picture may have some is it laid on white before. A JPEG file gets the
/// quality that was asked for, within 1 and 100.
pub proof fn law_pictures_are_written(
    input: Seq<char>,
    p: Picture,
    output: Seq<char>,
    opts: ConvertOptions,
    bytes: Seq<u8>,
)
    requires
        images::decoded_allows(input, Ok(p), output, opts, Ok(bytes)),
        opts.resize_width is None || opts.resize_width == Some(0u32),
        opts.resize_height is None || opts.resize_height == Some(0u32),
    ensures
        ({
            let e = converters::ext(output);
            let q: u8 = if opts.jpeg_quality < 1 {
                1
            } else if opts.jpeg_quality > 100 {
                100
            } else {
                opts.jpeg_quality
            };
            if has_alpha(p.color) && (e == "jpg"@ || e == "jpeg"@ || e == "bmp"@) {
                is_file_named(e, images::flattened(p), q, bytes)
            } else {
                is_file_named(e, p, q, bytes)
            }
        }),
{
    let e = converters::ext(output);
    names::lemma_image_names();
    converters::laws::lemma_ext_is_lower(output);
    law_formats_by_name(e);
    let how = images::resize_asked(opts);
    assert(how == Resize::Keep);
    let q = choose|q: Picture|
        #![trigger images::is_resized(p, how, q)]
        images::is_resized(p, how, q) && images::sized_allows(
            q,
            images::format_of(e)->Some_0,
            output,
            opts.jpeg_quality,
            Ok(bytes),
        );
    assert(q == p);
}

/// A file is in the format that its name says, whatever was done to the picture.
pub proof fn law_files_are_named_right(
    input: Seq<char>,
    p: Picture,
    output: Seq<char>,
    opts: ConvertOptions,
    bytes: Seq<u8>,
)
    requires
        images::decoded_allows(input, Ok(p), output, opts, Ok(bytes)),
    ensures
        exists|q: Picture, quality: u8| #[trigger]
            is_file_named(converters::ext(output), q, quality, bytes),
{
    let e = converters::ext(output);
    names::lemma_image_names();
    converters::laws::lemma_ext_is_lower(output);
    law_formats_by_name(e);
    let how = images::resize_asked(opts);
    let format = images::format_of(e)->Some_0;
    let q = choose|q: Picture|
        #![trigger images::is_resized(p, how, q)]
        images::is_resized(p, how, q) && images::sized_allows(
            q,
            format,
            output,
            opts.jpeg_quality,
            Ok(bytes),
        );
    assert(is_file_named(
        e,
        images::prepared(q, format),
        images::quality_within(opts.jpeg_quality),
        bytes,
    ));
}

/// What is written without transparency has none, and has the size of the
/// picture.
pub proof fn law_nothing_shows_through(p: Picture, format: PictureFormat)
    ensures
        images::prepared(p, format).width == p.width,
        images::prepared(p, format).height == p.height,
        format == PictureFormat::Jpeg || format == PictureFormat::Bmp ==> !has_alpha(
            images::prepared(p, format).color,
        ),
        !(format == PictureFormat::Jpeg || format == PictureFormat::Bmp) || !has_alpha(p.color)
            ==> images::prepared(p, format) == p,
{
}

/// An image that was not decoded is reported with its reason, and no file is
/// written; a name that no format has is reported as such.
pub proof fn law_broken_images(
    input: Seq<char>,
    why: Seq<char>,
    output: Seq<char>,
    opts: ConvertOptions,
    r: Result<Seq<u8>, Failure>,
)
    requires
        images::decoded_allows(input, Err(why), output, opts, r),
    ensures
        r matches Err(f) && (converters::is_image(converters::ext(output)) ==> (
        f == (Failure::MalformedData {
            path: input,
            format: "image ("@ + converters::ext(input) + ")"@,
            reason: why,
        })))
            && (!converters::is_image(converters::ext(output)) ==> f == (
        Failure::UnsupportedConversion {
            from: converters::ext(input),
            to: converters::ext(output),
        })),
{
    converters::laws::lemma_ext_is_lower(output);
    law_formats_by_name(converters::ext(output));
}

/// A picture whose samples do not make up its size is reported as broken, and
/// a size that a picture cannot take as one that cannot be written.
pub proof fn law_odd_pictures(
    input: Seq<char>,
    p: Picture,
    output: Seq<char>,
    opts: ConvertOptions,
    r: Result<Seq<u8>, Failure>,
)
    requires
        images::decoded_allows(input, Ok(p), output, opts, r),
        converters::is_image(converters::ext(output)),
    ensures
        !picture::is_whole(p) ==> r == Err::<Seq<u8>, _>(
            Failure::MalformedData {
                path: input,
                format: "image ("@ + converters::ext(input) + ")"@,
                reason: "the image data does not match its size"@,
            },
        ),
        picture::is_whole(p) && !images::can_resize(p, images::resize_asked(opts)) ==> r == Err::<
            Seq<u8>,
            _,
        >(
            Failure::UnwritableOutput {
                path: output,
                reason: "the image cannot take the requested size"@,
            },
        ),
{
    converters::laws::lemma_ext_is_lower(output);
    law_formats_by_name(converters::ext(output));
}

// ---------------------------------------------------------------------------
// Sizes
// ---------------------------------------------------------------------------

/// Both sides that were asked for are the sides of the picture; one side alone
/// is its side, and the other follows it in proportion; without any the picture
/// stays what it is. Zero asks for nothing.
pub proof fn law_sizes(p: Picture, opts: ConvertOptions, q: Picture, w: u32, h: u32)
    requires
        images::is_resized(p, images::resize_asked(opts), q),
        opts.resize_width == Some(w) || (w == 0 && opts.resize_width is None),
        opts.resize_height == Some(h) || (h == 0 && opts.resize_height is None),
        p.width > 0 && p.height > 0,
    ensures
        w > 0 && h > 0 ==> q.width == w && q.height == h,
        w == 0 && h == 0 ==> q == p,
        w > 0 && h == 0 && w * p.height <= u32::MAX * p.width ==> q.width == w && q.height >= 1 && (
        p.height * w) / (p.width as int) <= q.height <= (p.height * w) / (p.width as int) + 1,
        h > 0 && w == 0 && h * p.width < u32::MAX * p.height ==> q.height == h && q.width >= 1 && (
        p.width * h) / (p.height as int) <= q.width <= (p.width * h) / (p.height as int) + 1,
        q.color == p.color,
{
    assert(u32::MAX * p.height > h * p.width <==> !(u32::MAX * p.height <= h * p.width));
}

/// Pictures of ordinary sizes take any ordinary size.
pub proof fn law_ordinary_sizes(p: Picture, w: u32, h: u32)
    requires
        0 < p.width <= 8192 && 0 < p.height <= 8192,
        0 < w <= 8192 && 0 < h <= 8192,
    ensures
        images::can_resize(p, Resize::Exact(w, h)),
        images::can_resize(p, Resize::Keep),
{
    let (pw, wi, hi) = (p.width as int, w as int, h as int);
    assert(pw * hi <= 8192 * 8192 && wi * hi <= 8192 * 8192) by (nonlinear_arith)
        requires
            0 < pw <= 8192,
            0 < wi <= 8192,
            0 < hi <= 8192,
    ;
}

// ---------------------------------------------------------------------------
// Transparency
// ---------------------------------------------------------------------------

/// Of four samples of a pixel three are left; an opaque pixel keeps them, and a
/// clear one turns white.
pub proof fn law_pixels_on_white(rgba: Seq<u8>, k: int, c: int)
    requires
        0 <= k,
        4 * k + 3 < rgba.len(),
        0 <= c < 3,
    ensures
        images::opaque_bytes(rgba).len() == rgba.len() / 4 * 3,
        rgba[4 * k + 3] == 255 ==> images::opaque_bytes(rgba)[3 * k + c] == rgba[4 * k + c],
        rgba[4 * k + 3] == 0 ==> images::opaque_bytes(rgba)[3 * k + c] == 255,
        ({
            let alpha = rgba[4 * k + 3] as int;
            let exact = rgba[4 * k + c] * alpha + 255 * (255 - alpha);
            let r = images::opaque_bytes(rgba)[3 * k + c];
            255 * r <= exact <= 255 * (r + 1)
        }),
{
    let i = 3 * k + c;
    assert(i / 3 == k && i % 3 == c);
    images::law_opacity_ends(rgba[4 * k + c]);
    law_blending(rgba[4 * k + c], rgba[4 * k + 3]);
    assert((i / 3) * 4 == 4 * k);
}

/// A sample over white is the mean of both, weighed by its opacity and rounded
/// down: `(sample * alpha + 255 * (255 - alpha)) / 255`, or one less where that
/// is whole.
pub proof fn law_blending(sample: u8, alpha: u8)
    ensures
        ({
            let exact = sample * alpha + 255 * (255 - alpha);
            let r = images::over_white(sample, alpha);
            255 * r <= exact <= 255 * (r + 1)
        }),
{
    let one = 0x8000_0000int;
    let lim = 0x100_0000nat;
    let x = sample as int;
    let al = alpha as int;
    let a = number::nearest(alpha as nat * images::ONE as nat, 255, lim) as int;
    number_laws::law_floating(alpha as nat * images::ONE as nat, 255, lim);
    images::lemma_opacity(alpha);
    assert(-32640 <= 255 * a - al * one <= 32640);
    let rest = images::single((one - a) as nat) as int;
    number_laws::law_floating((one - a) as nat, 1, lim);
    assert(-128 <= rest - (one - a) <= 128);
    assert(0 <= x * a <= 255 * one) by (nonlinear_arith)
        requires
            0 <= x <= 255,
            0 <= a <= one,
    ;
    let colour = images::single((x * a) as nat) as int;
    assert((x * a) as nat == sample as nat * a as nat);
    number_laws::law_floating((x * a) as nat, 1, lim);
    assert(-32640 <= colour - x * a <= 32640);
    let ground = images::single((255 * rest) as nat) as int;
    number_laws::law_floating((255 * rest) as nat, 1, lim);
    assert(-32650 <= ground - 255 * rest <= 32650);
    let sum = images::single((colour + ground) as nat) as int;
    number_laws::law_floating((colour + ground) as nat, 1, lim);
    assert(-65400 <= sum - (colour + ground) <= 65400);
    let delta = 255 * a - al * one;
    let exact = x * al + 255 * (255 - al);
    assert(x * delta == 255 * (x * a) - (x * al) * one) by (nonlinear_arith)
        requires
            delta == 255 * a - al * one,
    ;
    assert(-32640 * 255 <= x * delta <= 32640 * 255) by (nonlinear_arith)
        requires
            0 <= x <= 255,
            -32640 <= delta <= 32640,
    ;
    assert(exact * one == (x * al) * one + 255 * (255 * one - al * one)) by (nonlinear_arith)
        requires
            exact == x * al + 255 * (255 - al),
    ;
    assert(-one < 255 * sum - exact * one < one);
    let whole = sum / one;
    assert(whole * one <= sum < whole * one + one);
    assert(255 * whole <= exact <= 255 * whole + 255);
    assert(exact <= 255 * 255) by (nonlinear_arith)
        requires
            exact == x * al + 255 * (255 - al),
            0 <= x <= 255,
            0 <= al <= 255,
    ;
    assert(images::over_white(sample, alpha) as int == whole);
}

} // verus!
