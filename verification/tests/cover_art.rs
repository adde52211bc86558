use wave::b64::{decode_standard, encode_standard};
use wave::cover_art::{
    accept_encoding, artwork_path, decode_data_url, encode_cover_data_url, hex_sha256, hex_string,
    lower_quality, make_sized_jpeg, make_thumb_jpeg, media_twin_path, normalize_mime,
    prefer_media_artwork_url, album_art_files,
    short_content_hash, thumb_relative_path, to_data_url,
};

fn tiny_png() -> Vec<u8> {
    let img = image::RgbImage::from_fn(4, 3, |x, y| image::Rgb([x as u8 * 40, y as u8 * 60, 90]));
    let mut out = std::io::Cursor::new(Vec::new());
    image::DynamicImage::ImageRgb8(img)
        .write_to(&mut out, image::ImageFormat::Png)
        .expect("png");
    out.into_inner()
}

#[test]
fn data_url_encodes_mime_and_base64() {
    assert_eq!(to_data_url("image/png", &[1, 2, 3]), "data:image/png;base64,AQID");
    assert_eq!(to_data_url("image/gif", &[]), "data:image/gif;base64,");
}

#[test]
fn data_url_round_trips() {
    let bytes = vec![0u8, 255, 10, 20, 30, 40, 50];
    let url = to_data_url("image/webp", &bytes);
    assert_eq!(decode_data_url(&url), Ok((bytes, "image/webp".to_string())));
}

#[test]
fn decode_data_url_errors() {
    assert_eq!(decode_data_url("no comma here"), Err("Invalid data URL".to_string()));
    let err = decode_data_url("data:image/png;base64,@@@").unwrap_err();
    assert!(err.starts_with("Failed to decode data URL: "), "{err}");
}

#[test]
fn decode_data_url_defaults_mime_without_data_scheme() {
    assert_eq!(
        decode_data_url("whatever,AQID"),
        Ok((vec![1, 2, 3], "image/jpeg".to_string()))
    );
    assert_eq!(
        decode_data_url("data:image/png,AQID"),
        Ok((vec![1, 2, 3], "image/png".to_string()))
    );
}

#[test]
fn base64_helpers_are_standard_and_padded() {
    assert_eq!(encode_standard(b"Ma"), "TWE=");
    assert_eq!(encode_standard(b"M"), "TQ==");
    assert_eq!(decode_standard("TWFu"), Ok(b"Man".to_vec()));
    assert!(decode_standard("TWE").is_err());
}

#[test]
fn mime_is_normalized() {
    assert_eq!(normalize_mime("IMAGE/JPG"), "image/jpeg");
    assert_eq!(normalize_mime("image/jpeg"), "image/jpeg");
    assert_eq!(normalize_mime("Image/PNG"), "image/png");
    assert_eq!(normalize_mime("image/x-icon"), "image/x-icon");
    assert_eq!(normalize_mime("text/plain"), "image/jpeg");
}

#[test]
fn thumb_paths_and_hashes() {
    assert_eq!(thumb_relative_path("abc"), "thumbs/abc.jpg");
    assert_eq!(hex_string(&[0x00, 0xab, 0x10]), "00ab10");
    assert_eq!(
        hex_sha256(b"abc"),
        "ba7816bf8f01cfea414140de5dae2223b00361a396177a9cb410ff61f20015ad"
    );
    assert_eq!(short_content_hash(b"abc"), "ba7816bf8f01cfea");
}

#[test]
fn quality_steps_down_to_the_floor() {
    assert_eq!(lower_quality(85), 70);
    assert_eq!(lower_quality(70), 55);
    assert_eq!(lower_quality(50), 35);
    assert_eq!(lower_quality(45), 35);
    assert!(accept_encoding(100, 100, 85));
    assert!(!accept_encoding(101, 100, 36));
    assert!(accept_encoding(101, 100, 35));
}

#[test]
fn undecodable_image_is_an_error() {
    let err = make_thumb_jpeg(b"not an image").unwrap_err();
    assert!(err.starts_with("Failed to load image: "), "{err}");
}

#[test]
fn thumbs_are_jpeg_within_budget() {
    let jpeg = make_thumb_jpeg(&tiny_png()).expect("thumb");
    assert_eq!(&jpeg[..2], &[0xFF, 0xD8]);
    assert!(jpeg.len() <= 12 * 1024);
    let tight = make_sized_jpeg(&tiny_png(), 2, 1, 70).expect("kept at the floor");
    assert_eq!(&tight[..2], &[0xFF, 0xD8]);
}

#[test]
fn cover_data_url_is_a_jpeg_data_url() {
    let url = encode_cover_data_url(tiny_png(), "image/png").expect("url");
    assert!(url.starts_with("data:image/jpeg;base64,/9j/"), "{url}");
    let (bytes, mime) = decode_data_url(&url).expect("decodes");
    assert_eq!(mime, "image/jpeg");
    assert_eq!(&bytes[..2], &[0xFF, 0xD8]);
}

#[test]
fn media_artwork_prefers_existing_twin() {
    assert_eq!(prefer_media_artwork_url(None, true), None);
    assert_eq!(prefer_media_artwork_url(Some("   "), true), None);
    assert_eq!(
        prefer_media_artwork_url(Some(" /c/thumbs/a.jpg "), false),
        Some("/c/thumbs/a.jpg".to_string())
    );
    assert_eq!(
        prefer_media_artwork_url(Some(" file:///c/thumbs/a.jpg"), true),
        Some("/c/media/a.jpg".to_string())
    );
    assert_eq!(
        prefer_media_artwork_url(Some("https://x/thumbs/a.jpg "), true),
        Some("https://x/media/a.jpg".to_string())
    );
    assert_eq!(
        prefer_media_artwork_url(Some("/c/covers/a.jpg"), true),
        Some("/c/covers/a.jpg".to_string())
    );
    assert_eq!(media_twin_path("/thumbs/a.jpg"), Some("/media/a.jpg".to_string()));
    assert_eq!(media_twin_path("thumbs/a.jpg"), Some("media/a.jpg".to_string()));
    assert_eq!(media_twin_path("/c/thumbs/"), None);
    assert_eq!(media_twin_path("a.jpg"), None);
    assert_eq!(media_twin_path("/t/thumbs/x/"), Some("/t/media/x".to_string()));
    assert_eq!(media_twin_path("/a//thumbs/./x"), Some("/a/media/x".to_string()));
    assert_eq!(media_twin_path("./thumbs/x.jpg"), Some("./media/x.jpg".to_string()));
    assert_eq!(media_twin_path("/c/thumbs/.."), None);
    assert_eq!(
        prefer_media_artwork_url(Some("/t/thumbs/x/"), true),
        Some("/t/media/x".to_string())
    );
    assert_eq!(artwork_path("  file:///c/thumbs/a.jpg "), "/c/thumbs/a.jpg");
    assert_eq!(artwork_path("/plain/path.jpg"), "/plain/path.jpg");
}

#[test]
fn album_art_files_are_named_by_the_thumb_hash() {
    let files = album_art_files("/data/cover_art", &tiny_png()).expect("files");
    let id = hex_sha256(&files.thumb);
    assert_eq!(files.art.id, id);
    assert_eq!(files.art.relative_path, format!("thumbs/{id}.jpg"));
    assert_eq!(files.art.thumb_abs_path, format!("/data/cover_art/thumbs/{id}.jpg"));
    assert_eq!(files.media_abs_path, format!("/data/cover_art/media/{id}.jpg"));
    assert_eq!(files.art.mime, "image/jpeg");
    assert_eq!(files.art.byte_size, files.thumb.len() as i64);
    assert_eq!(files.thumb, make_thumb_jpeg(&tiny_png()).unwrap());
    assert_eq!(&files.media[..2], &[0xFF, 0xD8]);
    match album_art_files("/x", b"nope") {
        Err(e) => assert!(e.starts_with("Failed to load image: "), "{e}"),
        Ok(_) => panic!("not an image"),
    }
}

#[test]
fn cover_data_url_ignores_the_reported_mime() {
    let a = encode_cover_data_url(tiny_png(), "image/png").unwrap();
    let b = encode_cover_data_url(tiny_png(), "whatever").unwrap();
    assert_eq!(a, b);
    let thumb = make_thumb_jpeg(&tiny_png()).unwrap();
    let (bytes, _) = decode_data_url(&a).unwrap();
    assert_eq!(bytes, thumb);
}
