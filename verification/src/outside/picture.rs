//! Raster images, scaled and encoded by the `image` crate.
use vstd::prelude::*;

verus! {

/// How the pixels of an image are stored.
#[derive(Debug, Clone, Copy, PartialEq, Eq, Structural)]
pub enum Color {
    L8,
    La8,
    Rgb8,
    Rgba8,
    L16,
    La16,
    Rgb16,
    Rgba16,
    Rgb32F,
    Rgba32F,
    Other,
}

/// The formats that images are written in.
#[derive(Debug, Clone, Copy, PartialEq, Eq, Structural)]
pub enum PictureFormat {
    Png,
    Jpeg,
    WebP,
    Bmp,
    Tiff,
    Gif,
}

/// A picture: size, storage, colour space (0 is sRGB), samples, and how many
/// bytes the samples take.
pub struct Picture {
    pub width: u32,
    pub height: u32,
    pub color: Color,
    pub space: int,
    pub samples: Seq<int>,
    pub bytes: nat,
}

/// The longest side of a picture that is sampled, before and after. The filter
/// finds its place in single precision: up to this side it is right to a
/// fraction of a pixel, far beyond it the weights of a pixel can add up to zero.
pub const LONGEST_SIDE: u32 = 0x10_0000;

/// `image::DynamicImage`, a decoded image.
#[verifier::external_type_specification]
#[verifier::external_body]
pub struct ExDynamicImage(image::DynamicImage);

/// What a decoded image holds.
pub uninterp spec fn picture_held(img: image::DynamicImage) -> Picture;

/// Whether a picture is another one stretched to a size. The filter takes sines,
/// whose precision varies from machine to machine, so there may be several.
pub uninterp spec fn is_stretch(p: Picture, width: u32, height: u32, q: Picture) -> bool;

/// Whether a picture is another one scaled to fit a size. There may be several,
/// as in [`is_stretch`].
pub uninterp spec fn is_scale(p: Picture, width: u32, height: u32, q: Picture) -> bool;

/// The samples of a picture as red, green, blue and alpha bytes.
pub uninterp spec fn rgba_bytes(p: Picture) -> Seq<u8>;

/// The JPEG file of a picture, or why there is none.
pub uninterp spec fn jpeg_bytes(p: Picture, quality: u8) -> Result<Seq<u8>, Seq<char>>;

/// Whether bytes are the file of a picture. There may be several: a TIFF file is
/// in the byte order of the machine.
pub uninterp spec fn is_picture_file(p: Picture, format: PictureFormat, bytes: Seq<u8>) -> bool;

/// Why there is no file of a picture, if so.
pub uninterp spec fn file_refused(p: Picture, format: PictureFormat) -> Option<Seq<char>>;

/// Whether a buffer of four samples of four bytes for each pixel can be asked
/// for.
pub open spec fn has_room(width: int, height: int) -> bool {
    16 * (width * height) <= isize::MAX
}

/// The bytes of one pixel.
pub open spec fn pixel_bytes(color: Color) -> int {
    match color {
        Color::L8 => 1,
        Color::La8 => 2,
        Color::Rgb8 => 3,
        Color::Rgba8 => 4,
        Color::L16 => 2,
        Color::La16 => 4,
        Color::Rgb16 => 6,
        Color::Rgba16 => 8,
        Color::Rgb32F => 12,
        Color::Rgba32F => 16,
        Color::Other => 0,
    }
}

/// Whether a picture has the samples of its pixels and no more. A decoded one
/// does; an image that is put together by hand may hold a longer buffer.
pub open spec fn is_whole(p: Picture) -> bool {
    &&& p.color != Color::Other
    &&& has_room(p.width as int, p.height as int)
    &&& p.bytes == pixel_bytes(p.color) * (p.width * p.height)
}

/// Whether a picture can be sampled to a size: the new one and what is needed on
/// the way can be asked for, and no side, old or new, is too long.
pub open spec fn can_sample(p: Picture, width: int, height: int) -> bool {
    &&& p.width <= LONGEST_SIDE
    &&& p.height <= LONGEST_SIDE
    &&& width <= LONGEST_SIDE
    &&& height <= LONGEST_SIDE
    &&& has_room(p.width as int, height)
    &&& has_room(width, height)
}

/// Whether a picture can be stretched to a size; to its own it is only copied.
pub open spec fn can_stretch(p: Picture, width: u32, height: u32) -> bool {
    (width == p.width && height == p.height) || can_sample(p, width as int, height as int)
}

/// The share of a limit that falls to a side, rounded down: `side * limit /
/// other`. Beside a side of zero it has no end but its own bound.
pub open spec fn share(side: u32, limit: u32, other: u32, bound: u32) -> int {
    if other > 0 {
        (side * limit) / (other as int)
    } else if side > 0 {
        bound as int
    } else {
        0
    }
}

/// A bound on the height of a scaled picture.
pub open spec fn scaled_height(p: Picture, width: u32, height: u32) -> int {
    let h = share(p.height, width, p.width, height);
    if h < height {
        h + 1
    } else {
        height as int
    }
}

/// A bound on the width of a scaled picture.
pub open spec fn scaled_width(p: Picture, width: u32, height: u32) -> int {
    let w = share(p.width, height, p.height, width);
    if w < width {
        w + 1
    } else {
        width as int
    }
}

/// Whether a picture can be scaled to fit a size.
pub open spec fn can_scale(p: Picture, width: u32, height: u32) -> bool {
    can_sample(p, scaled_width(p, width, height), scaled_height(p, width, height))
}

/// Whether a picture has the largest size of the old proportions within a
/// limit, up to rounding: one side takes its limit, the other is the rounded
/// share of it, and neither vanishes. Of nothing comes a single pixel.
pub open spec fn fits_within(p: Picture, width: u32, height: u32, q: Picture) -> bool {
    if p.width == 0 && p.height == 0 {
        q.width == 1 && q.height == 1
    } else if width * p.height <= height * p.width {
        let least = share(p.height, width, p.width, height);
        q.width == width && 1 <= q.height <= height && least <= q.height <= least + 1
    } else {
        let least = share(p.width, height, p.height, width);
        q.height == height && 1 <= q.width <= width && least <= q.width <= least + 1
    }
}

/// What encoded bytes are, or the error text.
pub open spec fn encoded_view(r: Result<Vec<u8>, String>) -> Result<Seq<u8>, Seq<char>> {
    match r {
        Ok(v) => Ok(v@),
        Err(e) => Err(e@),
    }
}

/// `image::DynamicImage::width`.
#[verifier::external_body]
pub(crate) fn width_of(img: &image::DynamicImage) -> (r: u32)
    ensures
        r == picture_held(*img).width,
{
    img.width()
}

/// `image::DynamicImage::height`.
#[verifier::external_body]
pub(crate) fn height_of(img: &image::DynamicImage) -> (r: u32)
    ensures
        r == picture_held(*img).height,
{
    img.height()
}

/// `image::DynamicImage::color`: how the pixels are stored.
#[verifier::external_body]
pub(crate) fn color_of(img: &image::DynamicImage) -> (r: Color)
    ensures
        r == picture_held(*img).color,
{
    match img.color() {
        image::ColorType::L8 => Color::L8,
        image::ColorType::La8 => Color::La8,
        image::ColorType::Rgb8 => Color::Rgb8,
        image::ColorType::Rgba8 => Color::Rgba8,
        image::ColorType::L16 => Color::L16,
        image::ColorType::La16 => Color::La16,
        image::ColorType::Rgb16 => Color::Rgb16,
        image::ColorType::Rgba16 => Color::Rgba16,
        image::ColorType::Rgb32F => Color::Rgb32F,
        image::ColorType::Rgba32F => Color::Rgba32F,
        _ => Color::Other,
    }
}

/// `image::DynamicImage::as_bytes` and the length of what it gives: the bytes
/// that the samples take.
#[verifier::external_body]
pub(crate) fn bytes_of(img: &image::DynamicImage) -> (r: usize)
    ensures
        r == picture_held(*img).bytes,
{
    img.as_bytes().len()
}

/// `image::DynamicImage::resize_exact` with the Lanczos filter. It goes over a
/// buffer of the old width and the new height, so both sizes must have room, and
/// it weighs pixels in single precision, so no side may be too long. The samples
/// have no name of their own: they are those of a stretch of the picture.
#[verifier::external_body]
pub(crate) fn stretch(img: &image::DynamicImage, width: u32, height: u32) -> (r:
    image::DynamicImage)
    requires
        width > 0,
        height > 0,
        is_whole(picture_held(*img)),
        can_stretch(picture_held(*img), width, height),
    ensures
        is_stretch(picture_held(*img), width, height, picture_held(r)),
        picture_held(r).width == width,
        picture_held(r).height == height,
        picture_held(r).color == picture_held(*img).color,
        is_whole(picture_held(r)),
{
    img.resize_exact(width, height, image::imageops::FilterType::Lanczos3)
}

/// `image::DynamicImage::resize` with the Lanczos filter: the largest picture
/// of the same proportions within a size. The samples are those of such a
/// picture, and the bounds those of [`stretch`].
#[verifier::external_body]
pub(crate) fn scale(img: &image::DynamicImage, width: u32, height: u32) -> (r:
    image::DynamicImage)
    requires
        width > 0,
        height > 0,
        is_whole(picture_held(*img)),
        can_scale(picture_held(*img), width, height),
    ensures
        is_scale(picture_held(*img), width, height, picture_held(r)),
        fits_within(picture_held(*img), width, height, picture_held(r)),
        picture_held(r).color == picture_held(*img).color,
        is_whole(picture_held(r)),
{
    img.resize(width, height, image::imageops::FilterType::Lanczos3)
}

/// `image::DynamicImage::to_rgba8`: four bytes for each pixel, row by row. The
/// picture must have the samples of its pixels and no more: they are taken over
/// one by one, whatever the size.
#[verifier::external_body]
pub(crate) fn to_rgba(img: &image::DynamicImage) -> (r: Vec<u8>)
    requires
        is_whole(picture_held(*img)),
    ensures
        r@ == rgba_bytes(picture_held(*img)),
        r@.len() == 4 * (picture_held(*img).width * picture_held(*img).height),
{
    img.to_rgba8().into_raw()
}

/// `image::RgbImage::from_raw`: the sRGB picture of three bytes for each
/// pixel; `None` where there are fewer bytes than that.
#[verifier::external_body]
pub(crate) fn from_rgb(width: u32, height: u32, data: Vec<u8>) -> (r: Option<image::DynamicImage>)
    ensures
        data@.len() == 3 * (width * height) ==> r is Some && picture_held(r->0) == (Picture {
            width,
            height,
            color: Color::Rgb8,
            space: 0,
            samples: data@.map_values(|b: u8| b as int),
            bytes: data@.len(),
        }),
{
    image::RgbImage::from_raw(width, height, data).map(image::DynamicImage::ImageRgb8)
}

/// `image::codecs::jpeg::JpegEncoder::encode_image` at a quality. The bytes
/// depend on the picture and the quality alone.
#[verifier::external_body]
pub(crate) fn encode_jpeg(img: &image::DynamicImage, quality: u8) -> (r: Result<Vec<u8>, String>)
    ensures
        encoded_view(r) == jpeg_bytes(picture_held(*img), quality),
{
    let mut out = Vec::new();
    image::codecs::jpeg::JpegEncoder::new_with_quality(&mut out, quality)
        .encode_image(img)
        .map_err(|e| e.to_string())?;
    Ok(out)
}

/// `image::DynamicImage::write_to` in a format: a file of the picture. Whether
/// there is one depends on the picture and the format alone. The encoders take
/// the samples of the pixels and no more.
#[verifier::external_body]
pub(crate) fn encode(img: &image::DynamicImage, format: PictureFormat) -> (r: Result<
    Vec<u8>,
    String,
>)
    requires
        is_whole(picture_held(*img)),
    ensures
        match r {
            Ok(bytes) => file_refused(picture_held(*img), format) is None && is_picture_file(
                picture_held(*img),
                format,
                bytes@,
            ),
            Err(e) => file_refused(picture_held(*img), format) == Some(e@),
        },
{
    let kind = match format {
        PictureFormat::Png => image::ImageFormat::Png,
        PictureFormat::Jpeg => image::ImageFormat::Jpeg,
        PictureFormat::WebP => image::ImageFormat::WebP,
        PictureFormat::Bmp => image::ImageFormat::Bmp,
        PictureFormat::Tiff => image::ImageFormat::Tiff,
        PictureFormat::Gif => image::ImageFormat::Gif,
    };
    let mut out = std::io::Cursor::new(Vec::new());
    img.write_to(&mut out, kind).map_err(|e| e.to_string())?;
    Ok(out.into_inner())
}

} // verus!
