use hawellha::converters::images::{
    blended, convert_image, flatten_pixels, image_format_for, needs_flatten, normalise, resize_of,
    ImageConverter, Resize,
};
use hawellha::converters::{ConvertOptions, Converter, Delivery, Source};
use hawellha::outside::picture::{Color, PictureFormat};
use image::{DynamicImage, GenericImageView, ImageFormat, Rgba, RgbaImage};

fn encoded(img: &DynamicImage, format: ImageFormat) -> Vec<u8> {
    let mut out = std::io::Cursor::new(Vec::new());
    img.write_to(&mut out, format).unwrap();
    out.into_inner()
}

fn decoded(content: &[u8]) -> Result<DynamicImage, String> {
    image::load_from_memory(content).map_err(|e| e.to_string())
}

fn source(content: Vec<u8>) -> Source {
    Source { picture: decoded(&content), ..Source::unread(true, true, false) }
}

fn bytes_of(d: Delivery) -> Vec<u8> {
    match d {
        Delivery::Bytes(b) => b,
        other => panic!("{other:?}"),
    }
}

#[test]
fn png_to_bmp_roundtrip() {
    let png = encoded(&DynamicImage::new_rgb8(8, 8), ImageFormat::Png);
    let d = ImageConverter
        .convert("/d/a.png", source(png), "/d/a.bmp", &ConvertOptions::default())
        .expect("png->bmp");
    let bmp = bytes_of(d);
    assert_eq!(&bmp[..2], b"BM");
    let back = image::load_from_memory(&bmp).unwrap();
    assert_eq!(back.dimensions(), (8, 8));
}

#[test]
fn every_format_is_written() {
    let png = encoded(&DynamicImage::new_rgb8(4, 3), ImageFormat::Png);
    let opts = ConvertOptions::default();
    for ext in ["png", "jpg", "webp", "bmp", "tiff", "gif"] {
        let out = convert_image("/d/a.png", decoded(&png), &format!("/d/a.{ext}"), &opts).unwrap();
        assert_eq!(image::load_from_memory(&out).unwrap().dimensions(), (4, 3), "{ext}");
    }
}

#[test]
fn mislabelled_images_are_read() {
    let png = encoded(&DynamicImage::new_rgb8(2, 2), ImageFormat::Png);
    assert!(convert_image("/d/a.jpg", decoded(&png), "/d/a.bmp", &ConvertOptions::default()).is_ok());
}

#[test]
fn images_are_resized() {
    let png = encoded(&DynamicImage::new_rgb8(8, 4), ImageFormat::Png);
    let sized = |w: Option<u32>, h: Option<u32>| {
        let opts = ConvertOptions { resize_width: w, resize_height: h, ..ConvertOptions::default() };
        let out = convert_image("/d/a.png", decoded(&png), "/d/b.bmp", &opts).unwrap();
        image::load_from_memory(&out).unwrap().dimensions()
    };
    assert_eq!(sized(Some(3), Some(5)), (3, 5));
    assert_eq!(sized(Some(4), None), (4, 2));
    assert_eq!(sized(Some(4), Some(0)), (4, 2));
    assert_eq!(sized(None, Some(8)), (16, 8));
    assert_eq!(sized(Some(0), None), (8, 4));
    assert_eq!(sized(None, None), (8, 4));
}

#[test]
fn impossible_sizes_are_refused() {
    let png = encoded(&DynamicImage::new_rgb8(8, 4), ImageFormat::Png);
    let opts = ConvertOptions {
        resize_width: Some(u32::MAX),
        resize_height: Some(u32::MAX),
        ..ConvertOptions::default()
    };
    let e = convert_image("/d/a.png", decoded(&png), "/d/b.bmp", &opts).unwrap_err();
    assert_eq!(
        e.message(),
        "cannot write output file '/d/b.bmp': the image cannot take the requested size"
    );
}

#[test]
fn surplus_samples_are_refused() {
    let long = || DynamicImage::ImageRgba8(RgbaImage::from_raw(1, 1, vec![0; 8]).unwrap());
    for ext in ["png", "jpg", "webp", "bmp", "tiff", "gif"] {
        let out = format!("/d/b.{ext}");
        let e = convert_image("/d/a.png", Ok(long()), &out, &ConvertOptions::default()).unwrap_err();
        assert_eq!(
            e.message(),
            "malformed image (png) data in '/d/a.png': the image data does not match its size",
            "{ext}"
        );
    }
    for img in [
        DynamicImage::new_luma8(3, 2),
        DynamicImage::new_luma_a8(3, 2),
        DynamicImage::new_rgb8(3, 2),
        DynamicImage::new_rgba8(3, 2),
        DynamicImage::new_luma16(3, 2),
        DynamicImage::new_luma_a16(3, 2),
        DynamicImage::new_rgb16(3, 2),
        DynamicImage::new_rgba16(3, 2),
        DynamicImage::new_rgb32f(3, 2),
        DynamicImage::new_rgba32f(3, 2),
    ] {
        assert!(convert_image("/d/a.png", Ok(img), "/d/b.jpg", &ConvertOptions::default()).is_ok());
    }
}

#[test]
fn sides_are_sampled_up_to_a_length() {
    let sized = |from: u32, to: u32| {
        let opts = ConvertOptions {
            resize_width: Some(to),
            resize_height: Some(1),
            ..ConvertOptions::default()
        };
        convert_image("/d/a.png", Ok(DynamicImage::new_luma8(from, 1)), "/d/b.png", &opts)
    };
    let longest = 1 << 20;
    for (from, to) in [(longest, longest - 3), (longest - 3, longest), (longest, 1), (1, longest)] {
        let out = sized(from, to).unwrap();
        assert_eq!(image::load_from_memory(&out).unwrap().dimensions(), (to, 1));
    }
    assert!(sized(longest + 1, longest).is_err());
    assert!(sized(longest, longest + 1).is_err());
    assert!(sized(longest + 1, longest + 1).is_ok());
}

#[test]
fn empty_images_are_scaled_to_blank_ones() {
    let opts = ConvertOptions { resize_width: Some(4), ..ConvertOptions::default() };
    for (w, h, size) in [(5, 0, (4, 1)), (0, 0, (1, 1))] {
        let img = DynamicImage::new_rgb8(w, h);
        let out = convert_image("/d/a.png", Ok(img), "/d/b.png", &opts).unwrap();
        assert_eq!(image::load_from_memory(&out).unwrap().dimensions(), size);
    }
}

#[test]
fn resize_choices() {
    let with = |w, h| ConvertOptions {
        resize_width: w,
        resize_height: h,
        ..ConvertOptions::default()
    };
    assert_eq!(resize_of(&with(Some(1), Some(2))), Resize::Exact(1, 2));
    assert_eq!(resize_of(&with(Some(1), None)), Resize::Within(1, u32::MAX));
    assert_eq!(resize_of(&with(Some(0), Some(2))), Resize::Within(u32::MAX, 2));
    assert_eq!(resize_of(&with(Some(0), Some(0))), Resize::Keep);
}

#[test]
fn blending_agrees_with_floating_point() {
    for alpha in 0..=255u8 {
        for sample in 0..=255u8 {
            let a = alpha as f32 / 255.0;
            let expected = (sample as f32 * a + 255.0 * (1.0 - a)) as u8;
            assert_eq!(blended(sample, alpha), expected, "{sample} at {alpha}");
        }
    }
}

#[test]
fn opaque_and_clear_samples() {
    for sample in [0u8, 1, 100, 254, 255] {
        assert_eq!(blended(sample, 255), sample);
        assert_eq!(blended(sample, 0), 255);
    }
    assert_eq!(flatten_pixels(&vec![10, 20, 30, 255, 1, 2, 3, 0]), vec![10, 20, 30, 255, 255, 255]);
}

#[test]
fn transparency_is_laid_on_white() {
    let mut img = RgbaImage::new(2, 1);
    img.put_pixel(0, 0, Rgba([200, 0, 0, 255]));
    img.put_pixel(1, 0, Rgba([200, 0, 0, 0]));
    let png = encoded(&DynamicImage::ImageRgba8(img), ImageFormat::Png);
    let out = convert_image("/d/a.png", decoded(&png), "/d/a.bmp", &ConvertOptions::default()).unwrap();
    let back = image::load_from_memory(&out).unwrap().to_rgb8();
    assert_eq!(back.get_pixel(0, 0).0, [200, 0, 0]);
    assert_eq!(back.get_pixel(1, 0).0, [255, 255, 255]);
    assert!(convert_image("/d/a.png", decoded(&png), "/d/a.jpg", &ConvertOptions::default()).is_ok());
}

#[test]
fn only_some_formats_need_a_ground() {
    assert!(needs_flatten(PictureFormat::Jpeg, Color::Rgba8));
    assert!(needs_flatten(PictureFormat::Bmp, Color::La16));
    assert!(!needs_flatten(PictureFormat::Png, Color::Rgba8));
    assert!(!needs_flatten(PictureFormat::Jpeg, Color::Rgb8));
}

#[test]
fn jpeg_quality_matters_within_bounds() {
    let mut img = RgbaImage::new(64, 64);
    for (x, y, p) in img.enumerate_pixels_mut() {
        *p = Rgba([(x * 37 % 256) as u8, (y * 91 % 256) as u8, (x * y % 256) as u8, 255]);
    }
    let png = encoded(&DynamicImage::ImageRgba8(img), ImageFormat::Png);
    let size = |q: u8| {
        let opts = ConvertOptions { jpeg_quality: q, ..ConvertOptions::default() };
        convert_image("/d/a.png", decoded(&png), "/d/a.jpg", &opts).unwrap()
    };
    assert!(size(10).len() < size(95).len());
    assert_eq!(size(0), size(1));
    assert_eq!(size(255), size(100));
}

#[test]
fn broken_images_are_reported() {
    let opts = ConvertOptions::default();
    let e = convert_image("/d/a.png", decoded(b"junk"), "/d/a.bmp", &opts).unwrap_err();
    assert!(e.message().starts_with("malformed image (png) data in '/d/a.png': "));
    let e = convert_image("/d/a.png", decoded(b"junk"), "/d/a.xyz", &opts).unwrap_err();
    assert_eq!(e.message(), "unsupported conversion: png → xyz");
    let gone = Source { picture: Err("denied".to_string()), ..Source::unread(true, true, false) };
    let e = ImageConverter.convert("/d/a.png", gone, "/d/a.bmp", &opts).unwrap_err();
    assert_eq!(e.message(), "malformed image (png) data in '/d/a.png': denied");
}

#[test]
fn image_formats() {
    assert_eq!(image_format_for("TIF"), Some(PictureFormat::Tiff));
    assert_eq!(image_format_for("jpeg"), Some(PictureFormat::Jpeg));
    assert_eq!(image_format_for("ico"), None);
    assert_eq!(normalise("JPEG"), "jpg");
    assert_eq!(normalise("tif"), "tiff");
}
