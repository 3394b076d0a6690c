//! Attachments of chat messages.

use openab::acp::ContentBlock;
use openab::media::{
    audio_within_limit, check_image_request, check_image_response, encode_image, hex_prefix,
    image_block, image_precheck, inline_text, inline_text_file, is_audio_mime, is_text_file,
    is_textual, is_video, is_video_file, reduction, resize_and_compress, strip_mime_params,
    text_within_limit, validate_image_response, MediaFetchError, MAX_IMAGE_BYTES,
};
use openab::scaling::{scaled_side, IMAGE_MAX_DIMENSION_PX};
use std::io::Cursor;

fn make_png(width: u32, height: u32) -> Vec<u8> {
    let img = image::RgbImage::new(width, height);
    let mut buf = Cursor::new(Vec::new());
    img.write_to(&mut buf, image::ImageFormat::Png).unwrap();
    buf.into_inner()
}

fn make_jpeg(width: u32, height: u32) -> Vec<u8> {
    let img = image::RgbImage::new(width, height);
    let mut buf = Cursor::new(Vec::new());
    img.write_to(&mut buf, image::ImageFormat::Jpeg).unwrap();
    buf.into_inner()
}

fn make_gif() -> Vec<u8> {
    vec![
        0x47, 0x49, 0x46, 0x38, 0x39, 0x61, 0x01, 0x00, 0x01, 0x00, 0x80, 0x00, 0x00, 0x00, 0x00,
        0x00, 0xff, 0xff, 0xff, 0x2C, 0x00, 0x00, 0x00, 0x00, 0x01, 0x00, 0x01, 0x00, 0x00, 0x02,
        0x02, 0x44, 0x01, 0x00, 0x3B,
    ]
}

#[test]
fn large_image_resized_to_max_dimension() {
    let png = make_png(3000, 2000);
    let (compressed, mime) = resize_and_compress(&png).unwrap();

    assert_eq!(mime, "image/jpeg");
    let result = image::load_from_memory(&compressed).unwrap();
    assert!(result.width() <= IMAGE_MAX_DIMENSION_PX);
    assert!(result.height() <= IMAGE_MAX_DIMENSION_PX);
}

#[test]
fn small_image_keeps_original_dimensions() {
    let png = make_png(800, 600);
    let (compressed, mime) = resize_and_compress(&png).unwrap();

    assert_eq!(mime, "image/jpeg");
    let result = image::load_from_memory(&compressed).unwrap();
    assert_eq!(result.width(), 800);
    assert_eq!(result.height(), 600);
}

#[test]
fn landscape_image_respects_aspect_ratio() {
    let png = make_png(4000, 2000);
    let (compressed, _) = resize_and_compress(&png).unwrap();

    let result = image::load_from_memory(&compressed).unwrap();
    assert_eq!(result.width(), 1200);
    assert_eq!(result.height(), 600);
}

#[test]
fn portrait_image_respects_aspect_ratio() {
    let png = make_png(2000, 4000);
    let (compressed, _) = resize_and_compress(&png).unwrap();

    let result = image::load_from_memory(&compressed).unwrap();
    assert_eq!(result.width(), 600);
    assert_eq!(result.height(), 1200);
}

#[test]
fn compressed_output_is_smaller_than_original() {
    let png = make_png(3000, 2000);
    let (compressed, _) = resize_and_compress(&png).unwrap();

    assert!(
        compressed.len() < png.len(),
        "compressed {} should be < original {}",
        compressed.len(),
        png.len()
    );
}

#[test]
fn gif_passes_through_unchanged() {
    let gif = make_gif();
    let (output, mime) = resize_and_compress(&gif).unwrap();

    assert_eq!(mime, "image/gif");
    assert_eq!(output, gif);
}

#[test]
fn invalid_data_returns_error() {
    let garbage = vec![0x00, 0x01, 0x02, 0x03];
    assert!(resize_and_compress(&garbage).is_err());
}

#[test]
fn validate_accepts_png_with_matching_content_type() {
    let png = make_png(1, 1);
    assert!(validate_image_response(Some("image/png"), &png).is_ok());
}

#[test]
fn validate_accepts_jpeg_with_matching_content_type() {
    let jpeg = make_jpeg(1, 1);
    assert!(validate_image_response(Some("image/jpeg"), &jpeg).is_ok());
}

#[test]
fn validate_accepts_gif_with_matching_content_type() {
    let gif = make_gif();
    assert!(validate_image_response(Some("image/gif"), &gif).is_ok());
}

#[test]
fn validate_rejects_corrupt_gif_body() {
    let corrupt_gif = b"GIF89a\x01\x00\x01\x00\x00\x00\x00";
    let result = validate_image_response(Some("image/gif"), corrupt_gif);
    assert!(matches!(
        result,
        Err(MediaFetchError::InvalidImageBody { .. })
    ));
}

#[test]
fn validate_accepts_missing_content_type_with_valid_png() {
    // When Content-Type header is absent, fall back to magic-byte detection.
    let png = make_png(1, 1);
    assert!(validate_image_response(None, &png).is_ok());
}

#[test]
fn validate_content_type_strips_params() {
    // "image/png; charset=binary" is a real header value — must be accepted.
    let png = make_png(1, 1);
    assert!(validate_image_response(Some("image/png; charset=binary"), &png).is_ok());
}

#[test]
fn validate_rejects_html_body_labeled_as_image_png() {
    let html_body = b"<!DOCTYPE html><html><head></head><body>Slack login</body></html>";
    let result = validate_image_response(Some("image/png"), html_body);
    match result {
        Err(MediaFetchError::InvalidImageBody { magic_prefix_hex }) => {
            assert_eq!(magic_prefix_hex, "3c21444f43545950");
        }
        other => panic!("expected InvalidImageBody, got {other:?}"),
    }
}

#[test]
fn validate_rejects_text_html_content_type() {
    // Even if the body were a valid image, a text/html Content-Type must be rejected.
    let png = make_png(1, 1);
    let result = validate_image_response(Some("text/html; charset=utf-8"), &png);
    assert!(matches!(
        result,
        Err(MediaFetchError::UnsupportedResponseType { .. })
    ));
}

#[test]
fn validate_rejects_mixed_case_text_content_type() {
    // Mixed-case Content-Type must be normalised before rejection.
    let png = make_png(1, 1);
    let result = validate_image_response(Some("Text/HTML; Charset=utf-8"), &png);
    assert!(matches!(
        result,
        Err(MediaFetchError::UnsupportedResponseType { .. })
    ));
}

#[test]
fn validate_accepts_octet_stream_with_valid_png() {
    let png = make_png(1, 1);
    assert!(
        validate_image_response(Some("application/octet-stream"), &png).is_ok(),
        "application/octet-stream must pass through to magic-byte check"
    );
}

#[test]
fn validate_rejects_json_body_by_magic_bytes() {
    let json_body = b"{\"error\":\"invalid_auth\",\"ok\":false}";
    let result = validate_image_response(Some("application/json"), json_body);
    assert!(matches!(
        result,
        Err(MediaFetchError::InvalidImageBody { .. })
    ));
}

#[test]
fn validate_rejects_html_body_with_missing_content_type() {
    let html_body = b"<!DOCTYPE html><html><body>error page</body></html>";
    let result = validate_image_response(None, html_body);
    assert!(matches!(
        result,
        Err(MediaFetchError::InvalidImageBody { .. })
    ));
}

#[test]
fn validate_rejects_empty_body() {
    let result = validate_image_response(Some("image/png"), &[]);
    assert!(matches!(
        result,
        Err(MediaFetchError::InvalidImageBody { .. })
    ));
}

#[test]
fn validate_rejects_truncated_png_header() {
    // PNG magic is 8 bytes; 4 bytes is not enough to identify the format.
    let truncated = [0x89u8, 0x50, 0x4e, 0x47];
    let result = validate_image_response(Some("image/png"), &truncated);
    assert!(matches!(
        result,
        Err(MediaFetchError::InvalidImageBody { .. })
    ));
}

#[test]
fn truncated_png_body_must_not_produce_content_block() {
    // Valid PNG magic bytes (8 bytes) + partial IHDR -- body is too short to decode.
    // Raw bytes are never forwarded in place of a failed compression.
    let truncated: &[u8] = &[
        0x89, 0x50, 0x4e, 0x47, 0x0d, 0x0a, 0x1a, 0x0a, // PNG magic
        0x00, 0x00, 0x00, 0x0d, 0x49, 0x48, 0x44, 0x52, // partial IHDR
    ];
    assert!(
        validate_image_response(Some("image/png"), truncated).is_ok(),
        "magic-byte check still passes for truncated body"
    );
    assert!(
        resize_and_compress(truncated).is_err(),
        "truncated PNG must fail at decode -- no raw-byte fallback allowed"
    );
}

#[test]
fn validate_accepts_webp_by_magic_bytes() {
    let img = image::RgbImage::new(1, 1);
    let mut buf = std::io::Cursor::new(Vec::new());
    img.write_to(&mut buf, image::ImageFormat::WebP).unwrap();
    let webp_body = buf.into_inner();
    assert!(validate_image_response(Some("image/webp"), &webp_body).is_ok());
}

#[test]
fn hex_prefix_formats_first_8_bytes() {
    let bytes = b"<!DOCTYPE html>";
    assert_eq!(hex_prefix(bytes), "3c21444f43545950");
}

#[test]
fn hex_prefix_handles_short_buffer() {
    let bytes = [0xffu8, 0xd8];
    assert_eq!(hex_prefix(&bytes), "ffd8");
}

#[test]
fn video_file_detects_mime_and_common_extensions() {
    assert!(is_video_file("clip.bin", Some("video/mp4")));
    assert!(is_video_file("clip.mp4", None));
    assert!(is_video_file("clip.MOV", None));
    assert!(!is_video_file("notes.txt", Some("text/plain")));
}

#[test]
fn media_fetch_error_display_renders() {
    assert_eq!(MediaFetchError::NotAnImage.message(), "not an image attachment");
    assert_eq!(
        MediaFetchError::UnsupportedResponseType {
            actual: Some("text/html".into()),
        }
        .message(),
        "server returned unexpected content type (actual: text/html)"
    );
    let s = MediaFetchError::UnsupportedResponseType { actual: None }.message();
    assert!(s.contains("none"), "None branch should render as 'none'");
    assert_eq!(
        MediaFetchError::InvalidImageBody {
            magic_prefix_hex: "3c21444f43545950".into(),
        }
        .message(),
        "response body is not a valid image (first 8 bytes: 3c21444f43545950)"
    );
    assert_eq!(
        MediaFetchError::SizeExceeded {
            actual: 11_000_000,
            limit: 10_000_000,
        }
        .message(),
        "file size 11000000 exceeds limit 10000000"
    );
    assert_eq!(
        MediaFetchError::HttpStatus("401 Unauthorized".into()).message(),
        "HTTP 401 Unauthorized"
    );
    assert_eq!(
        MediaFetchError::Network("reset".into()).message(),
        "network error: reset"
    );
    assert_eq!(
        MediaFetchError::ProcessingFailed("bad".into()).message(),
        "image processing failed: bad"
    );
}

#[test]
fn reduced_sides_are_those_of_double_precision() {
    let mut checked = 0;
    for longest in (1201u32..20_000).chain([65_535, 1_000_003, u32::MAX]) {
        for side in [1, 2, 3, longest / 7, longest / 3, longest / 2, longest - 1, longest] {
            let ratio = f64::from(IMAGE_MAX_DIMENSION_PX) / f64::from(longest);
            let expected = (f64::from(side) * ratio) as u32;
            assert_eq!(scaled_side(side, longest), expected, "{side} of {longest}");
            checked += 1;
        }
    }
    assert!(checked > 100_000);
    assert_eq!(reduction(4000, 2000), Some((1200, 600)));
    assert_eq!(reduction(1200, 1200), None);
    assert_eq!(reduction(0, 0), None);
}

#[test]
fn image_attachments_are_recognised_before_download() {
    let check = |url: &str, hint: Option<&str>, name: &str, size: u64| {
        image_precheck(url, hint, name, size)
    };
    assert_eq!(check("", Some("image/png"), "a.png", 1), Err(MediaFetchError::NotAnImage));
    assert_eq!(check("u", None, "a.PNG", 1), Ok(()));
    assert_eq!(check("u", None, "a.b.jpeg", 1), Ok(()));
    assert_eq!(check("u", None, "png", 1), Ok(()));
    assert_eq!(check("u", None, "a.bmp", 1), Err(MediaFetchError::NotAnImage));
    assert_eq!(check("u", Some(" image/bmp; x=y"), "a", 1), Ok(()));
    assert_eq!(check("u", Some("text/plain"), "a.png", 1), Err(MediaFetchError::NotAnImage));
    assert_eq!(
        check("u", None, "a.gif", MAX_IMAGE_BYTES + 1),
        Err(MediaFetchError::SizeExceeded {
            actual: 10_485_761,
            limit: 10_485_760,
        })
    );
    assert_eq!(check_image_request("u", None, "webp", MAX_IMAGE_BYTES), Ok(()));
    assert_eq!(check_image_request("u", None, "WEBP", 1), Err(MediaFetchError::NotAnImage));
}

#[test]
fn response_check_takes_the_outcome_of_gif_decoding() {
    let gif = make_gif();
    assert!(check_image_response(None, &gif, true).is_ok());
    assert_eq!(
        check_image_response(None, &gif, false),
        Err(MediaFetchError::InvalidImageBody {
            magic_prefix_hex: "4749463839610100".into(),
        })
    );
    assert_eq!(
        check_image_response(Some("text/html".into()), &gif, true),
        Err(MediaFetchError::UnsupportedResponseType {
            actual: Some("text/html".into()),
        })
    );
}

#[test]
fn downloaded_image_becomes_a_block() {
    match encode_image(Some("image/gif"), &make_gif()) {
        Ok(ContentBlock::Image { media_type, data }) => {
            assert_eq!(media_type, "image/gif");
            assert_eq!(data, "R0lGODlhAQABAIAAAAAAAP///ywAAAAAAQABAAACAkQBADs=");
        }
        other => panic!("unexpected {other:?}"),
    }
    match encode_image(None, &make_png(3000, 10)) {
        Ok(ContentBlock::Image { media_type, data }) => {
            assert_eq!(media_type, "image/jpeg");
            assert!(data.starts_with("/9j/"));
        }
        other => panic!("unexpected {other:?}"),
    }
    let large = vec![0u8; MAX_IMAGE_BYTES as usize + 1];
    assert!(matches!(
        encode_image(None, &large),
        Err(MediaFetchError::SizeExceeded { actual: 10_485_761, .. })
    ));
    assert!(matches!(
        encode_image(None, b"nope"),
        Err(MediaFetchError::InvalidImageBody { .. })
    ));
    assert!(matches!(
        encode_image(None, &make_png(2, 2)[..30]),
        Err(MediaFetchError::ProcessingFailed(_))
    ));
    assert_eq!(
        image_block(Ok((vec![0xfb, 0xff], "image/gif".into()))),
        Ok(ContentBlock::Image {
            media_type: "image/gif".into(),
            data: "+/8=".into(),
        })
    );
    assert_eq!(
        image_block(Err("bad".into())),
        Err(MediaFetchError::ProcessingFailed("bad".into()))
    );
}

#[test]
fn compressed_images_have_the_library_quality() {
    let png = |img: image::DynamicImage| {
        let mut buf = Cursor::new(Vec::new());
        img.write_to(&mut buf, image::ImageFormat::Png).unwrap();
        buf.into_inner()
    };
    let images = vec![
        (image::DynamicImage::new_luma8(9, 5), 1),
        (image::DynamicImage::new_luma_a16(9, 5), 1),
        (image::DynamicImage::new_rgb8(9, 5), 3),
        (image::DynamicImage::new_rgba16(9, 5), 3),
        (image::DynamicImage::new_rgb8(1300, 5), 3),
    ];
    for (img, components) in images {
        let (out, _) = resize_and_compress(&png(img)).unwrap();
        assert_eq!(out[29], components);
        assert_eq!(out[98 + 3 * usize::from(components)], 50);
    }
}

#[test]
fn reduced_images_keep_their_proportions() {
    for (w, h) in [(1201, 70), (70, 1201), (1999, 120), (3000, 7), (5000, 3)] {
        let (nw, nh) = reduction(w, h).unwrap();
        let (out, _) = resize_and_compress(&make_png(w, h)).unwrap();
        let img = image::load_from_memory(&out).unwrap();
        let (ow, oh) = (img.width(), img.height());
        assert!(ow <= nw.max(1) && oh <= nh.max(1));
        let by_width = ow == nw.max(1) && (oh * w).abs_diff(h * nw) <= w;
        let by_height = oh == nh.max(1) && (ow * h).abs_diff(w * nh) <= h;
        assert!(by_width || by_height, "{w} x {h} became {ow} x {oh}");
    }
    let (out, _) = resize_and_compress(&make_png(1201, 700)).unwrap();
    let img = image::load_from_memory(&out).unwrap();
    assert_eq!((img.width(), img.height()), (1199, 699));
}

#[test]
fn very_flat_images_shrink_to_one_pixel_at_least() {
    let (out, _) = resize_and_compress(&make_png(5000, 1)).unwrap();
    let img = image::load_from_memory(&out).unwrap();
    assert_eq!((img.width(), img.height()), (1, 1));
}

#[test]
fn text_files_are_recognised() {
    assert!(is_text_file("a.RS", None));
    assert!(is_text_file("Dockerfile", None));
    assert!(is_text_file(".gitignore", None));
    assert!(is_text_file("blob", Some("text/x-log; charset=utf-8")));
    assert!(is_text_file("blob", Some("application/json")));
    assert!(!is_text_file("txt", None));
    assert!(!is_text_file("a.exe", Some("application/octet-stream")));
    assert!(is_textual(None, Some("yaml"), "x"));
    assert!(!is_textual(None, None, "x"));
    assert!(is_video(Some("video/mp4"), ""));
    assert!(!is_video(None, "MP4"));
    assert!(is_audio_mime("audio/ogg"));
    assert!(!is_audio_mime("Audio/ogg"));
    assert_eq!(strip_mime_params(" image/png ; charset=binary"), "image/png");
    assert!(audio_within_limit(26_214_400) && !audio_within_limit(26_214_401));
    assert!(text_within_limit(524_288) && !text_within_limit(524_289));
}

#[test]
fn text_files_do_not_depend_on_case_or_type_parameters() {
    for name in ["a.rs", "Dockerfile", "notes.TXT", "photo.png", "txt", ".gitignore", "a.b.md",
        "Ma\u{212a}efile", "\u{3a3}a.rs", "a\u{3a3}.md", "gr\u{fc}n.png",
    ] {
        let by_name = is_text_file(name, None);
        assert_eq!(is_text_file(&name.to_ascii_uppercase(), None), by_name, "{name}");
        for mime in ["image/png", "text/plain", "application/json", ""] {
            let plain = is_text_file(name, Some(mime));
            assert!(plain || !by_name);
            let with = format!("{mime}; charset=utf-8");
            assert_eq!(is_text_file(name, Some(&with)), plain, "{name} {mime}");
        }
    }
    assert!(!is_text_file("txt", None));
    assert!(is_text_file("a.txt", None));
}

#[test]
fn compressed_image_shows_the_picture() {
    let mut img = image::RgbImage::new(1300, 64);
    for (x, _, p) in img.enumerate_pixels_mut() {
        *p = if x < 650 { image::Rgb([250, 5, 5]) } else { image::Rgb([5, 5, 250]) };
    }
    let mut small = image::RgbImage::new(64, 64);
    for (x, _, p) in small.enumerate_pixels_mut() {
        *p = if x < 32 { image::Rgb([250, 5, 5]) } else { image::Rgb([5, 5, 250]) };
    }
    for picture in [img, small] {
        let mut buf = Cursor::new(Vec::new());
        picture.write_to(&mut buf, image::ImageFormat::Png).unwrap();
        let (out, _) = resize_and_compress(&buf.into_inner()).unwrap();
        let shown = image::load_from_memory(&out).unwrap().to_rgb8();
        let (w, h) = (shown.width(), shown.height());
        let left = shown.get_pixel(w / 4, h / 2);
        let right = shown.get_pixel(3 * w / 4, h / 2);
        assert!(left[0] > 200 && left[2] < 60);
        assert!(right[2] > 200 && right[0] < 60);
    }
}

#[test]
fn inlined_files_are_fenced_safely() {
    match inline_text_file("a.md", b"x\n````\ny") {
        Some((ContentBlock::Text { text }, size)) => {
            assert_eq!(size, 8);
            assert_eq!(text, "[File: a.md]\n`````\nx\n````\ny\n`````");
        }
        other => panic!("unexpected {other:?}"),
    }
    match inline_text_file("b.txt", &[b'a', 0xff, b'b']) {
        Some((ContentBlock::Text { text }, 3)) => {
            assert_eq!(text, "[File: b.txt]\n```\na\u{fffd}b\n```")
        }
        other => panic!("unexpected {other:?}"),
    }
    assert!(inline_text_file("c.txt", &vec![b'x'; 524_289]).is_none());
    assert_eq!(
        inline_text("d", ""),
        ContentBlock::Text {
            text: "[File: d]\n```\n\n```".into(),
        }
    );
}
