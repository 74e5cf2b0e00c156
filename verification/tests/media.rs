use hyprcollab::capabilities::{detect_protocol, GraphicsProtocol, TerminalCapabilities};
use hyprcollab::kitty::{encode_kitty, extract_payload};
use hyprcollab::preview::{decode_image, encode_sixel, resize_to_cols, thumbnail_width, ImagePreview, PreviewImage, PreviewOutput};
use hyprcollab::sixel::{build_palette, encode_image_sixel, nearest_color, RgbPixels, MAX_COLORS};
use image::{DynamicImage, ImageBuffer, Rgb, RgbImage};

// ── capabilities ──────────────────────────────────────────────────────────────

#[test]
fn default_has_no_protocol() {
    let caps = TerminalCapabilities::default();
    assert_eq!(caps.graphics, GraphicsProtocol::NoGraphics);
    assert!(!caps.supports_kitty());
    assert!(!caps.supports_sixel());
    assert!(!caps.supports_any_graphics());
}

#[test]
fn with_protocol_kitty() {
    let caps = TerminalCapabilities::with_protocol(GraphicsProtocol::Kitty);
    assert!(caps.supports_kitty());
    assert!(caps.true_color);
}

#[test]
fn with_protocol_sixel() {
    let caps = TerminalCapabilities::with_protocol(GraphicsProtocol::Sixel);
    assert!(caps.supports_sixel());
    assert!(!caps.supports_kitty());
}

#[test]
fn detect_kitty_from_term_var() {
    let p = detect_protocol("xterm-kitty", "", false);
    assert_eq!(p, GraphicsProtocol::Kitty);
}

#[test]
fn detect_kitty_from_term_program() {
    let p = detect_protocol("", "kitty", false);
    assert_eq!(p, GraphicsProtocol::Kitty);
}

#[test]
fn detect_sixel_from_xterm() {
    let p = detect_protocol("xterm-256color", "", false);
    assert_eq!(p, GraphicsProtocol::Sixel);
}

#[test]
fn detect_sixel_from_mlterm_env() {
    let p = detect_protocol("", "", true);
    assert_eq!(p, GraphicsProtocol::Sixel);
}

#[test]
fn unknown_term_returns_none() {
    let p = detect_protocol("dumb", "", false);
    assert_eq!(p, GraphicsProtocol::NoGraphics);
}

#[test]
fn detect_kitty_term_program_ignores_ascii_case() {
    assert_eq!(detect_protocol("dumb", "KiTTY", false), GraphicsProtocol::Kitty);
    assert_eq!(detect_protocol("dumb", "iTerm.app", false), GraphicsProtocol::Sixel);
}

#[test]
fn capabilities_from_vars() {
    let caps = TerminalCapabilities::from_vars("screen".to_string(), "", "TrueColor".to_string(), false);
    assert_eq!(caps.graphics, GraphicsProtocol::NoGraphics);
    assert!(caps.true_color);
    assert_eq!(caps.columns, 0);
    let caps = TerminalCapabilities::from_vars("xterm-kitty".to_string(), "", String::new(), false);
    assert!(caps.true_color);
    assert!(caps.supports_kitty());
}

// ── preview ───────────────────────────────────────────────────────────────────

fn tiny_png_bytes() -> Vec<u8> {
    let img: RgbImage = ImageBuffer::from_pixel(4, 4, Rgb([200u8, 100, 50]));
    let mut buf = std::io::Cursor::new(Vec::new());
    DynamicImage::ImageRgb8(img).write_to(&mut buf, image::ImageFormat::Png).unwrap();
    buf.into_inner()
}

#[test]
fn no_protocol_returns_unavailable() {
    let mut preview = ImagePreview::new(TerminalCapabilities::with_protocol(GraphicsProtocol::NoGraphics));
    let result = preview.encode_png(&tiny_png_bytes(), 0).unwrap();
    assert!(matches!(result, PreviewOutput::Unavailable));
}

#[test]
fn kitty_protocol_returns_escape_sequence() {
    let mut preview = ImagePreview::new(TerminalCapabilities::with_protocol(GraphicsProtocol::Kitty));
    let result = preview.encode_png(&tiny_png_bytes(), 0).unwrap();
    match result {
        PreviewOutput::EscapeSequence(s) => {
            assert!(s.contains("\x1b_G"), "should be kitty sequence");
        }
        PreviewOutput::Unavailable => panic!("expected kitty output"),
    }
}

#[test]
fn sixel_protocol_returns_escape_sequence() {
    let mut preview = ImagePreview::new(TerminalCapabilities::with_protocol(GraphicsProtocol::Sixel));
    let result = preview.encode_png(&tiny_png_bytes(), 0).unwrap();
    match result {
        PreviewOutput::EscapeSequence(s) => {
            assert!(s.contains("\x1bP"), "should be sixel sequence");
        }
        PreviewOutput::Unavailable => panic!("expected sixel output"),
    }
}

#[test]
fn resize_to_cols_shrinks_wide_image() {
    let wide: RgbImage = ImageBuffer::from_pixel(1600, 100, Rgb([0u8, 0, 0]));
    let img = preview_image(DynamicImage::ImageRgb8(wide));
    let resized = resize_to_cols(img, 80);
    assert!(resized.width() <= 640, "should be resized, got {}", resized.width());
}

#[test]
fn resize_to_cols_zero_does_not_change_image() {
    let img_raw: RgbImage = ImageBuffer::from_pixel(100, 100, Rgb([0u8, 0, 0]));
    let img = preview_image(DynamicImage::ImageRgb8(img_raw));
    let result = resize_to_cols(img, 0);
    assert_eq!(result.width(), 100);
}

#[test]
fn protocol_getter() {
    let preview = ImagePreview::new(TerminalCapabilities::with_protocol(GraphicsProtocol::Kitty));
    assert_eq!(preview.protocol(), GraphicsProtocol::Kitty);
}

#[test]
fn thumbnail_width_decision() {
    assert_eq!(thumbnail_width(1600, 80), Some(640));
    assert_eq!(thumbnail_width(640, 80), None);
    assert_eq!(thumbnail_width(5000, 0), None);
}

#[test]
fn preview_bad_bytes_is_load_error() {
    let mut preview = ImagePreview::new(TerminalCapabilities::with_protocol(GraphicsProtocol::Sixel));
    let err = preview.encode_png(b"not an image", 10).unwrap_err();
    assert!(err.starts_with("image load: "), "{err}");
}

#[test]
fn preview_clear_cache_keeps_protocol() {
    let mut preview = ImagePreview::new(TerminalCapabilities::with_protocol(GraphicsProtocol::Sixel));
    preview.clear_cache();
    assert_eq!(preview.protocol(), GraphicsProtocol::Sixel);
}

// ── kitty ─────────────────────────────────────────────────────────────────────

fn tiny_png() -> Vec<u8> {
    vec![
        0x89, 0x50, 0x4e, 0x47, 0x0d, 0x0a, 0x1a, 0x0a, 0x00, 0x00, 0x00, 0x0d, 0x49, 0x48, 0x44,
        0x52, 0x00, 0x00, 0x00, 0x01, 0x00, 0x00, 0x00, 0x01, 0x08, 0x02, 0x00, 0x00, 0x00, 0x90,
        0x77, 0x53, 0xde, 0x00, 0x00, 0x00, 0x0c, 0x49, 0x44, 0x41, 0x54, 0x08, 0xd7, 0x63, 0xf8,
        0xcf, 0xc0, 0x00, 0x00, 0x00, 0x02, 0x00, 0x01, 0xe2, 0x21, 0xbc, 0x33, 0x00, 0x00, 0x00,
        0x00, 0x49, 0x45, 0x4e, 0x44, 0xae, 0x42, 0x60, 0x82,
    ]
}

#[test]
fn encode_starts_with_apc() {
    let seq = encode_kitty(&tiny_png()).unwrap();
    assert!(seq.starts_with("\x1b_G"), "should start with ESC_G");
}

#[test]
fn encode_ends_with_st() {
    let seq = encode_kitty(&tiny_png()).unwrap();
    assert!(seq.ends_with("\x1b\\"), "should end with ESC\\");
}

#[test]
fn encode_contains_action_transmit() {
    let seq = encode_kitty(&tiny_png()).unwrap();
    assert!(seq.contains("a=T"), "should have a=T (transmit)");
}

#[test]
fn encode_contains_png_format() {
    let seq = encode_kitty(&tiny_png()).unwrap();
    assert!(seq.contains("f=100"), "should have f=100 (PNG format)");
}

#[test]
fn encode_payload_is_valid_base64() {
    let png = tiny_png();
    let seq = encode_kitty(&png).unwrap();
    let decoded = extract_payload(&seq).expect("should decode payload");
    assert_eq!(decoded, png, "decoded payload should match the input PNG");
}

#[test]
fn empty_input_returns_error() {
    assert!(encode_kitty(&[]).is_err());
}

#[test]
fn large_image_uses_multiple_chunks() {
    let big_data = vec![0xFFu8; 8192];
    let seq = encode_kitty(&big_data).unwrap();
    let chunk_count = seq.matches("\x1b_G").count();
    assert!(chunk_count >= 2, "large data should be split: got {chunk_count} chunks");
}

#[test]
fn kitty_exact_frames() {
    assert_eq!(encode_kitty(b"Man").unwrap(), "\x1b_Ga=T,f=100,q=1,m=0;TWFu\x1b\\");
    assert_eq!(encode_kitty(b"M").unwrap(), "\x1b_Ga=T,f=100,q=1,m=0;TQ==\x1b\\");
    assert_eq!(encode_kitty(&[]).unwrap_err(), "empty PNG data");
}

#[test]
fn kitty_frame_sizes_and_flags() {
    let data = vec![7u8; 3072 + 3];
    let seq = encode_kitty(&data).unwrap();
    let frames: Vec<&str> = seq.split("\x1b\\").filter(|f| !f.is_empty()).collect();
    assert_eq!(frames.len(), 2);
    assert!(frames[0].starts_with("\x1b_Ga=T,f=100,q=1,m=1;"));
    assert_eq!(frames[0].len() - "\x1b_Ga=T,f=100,q=1,m=1;".len(), 4096);
    assert_eq!(frames[1], "\x1b_Gm=0;BwcH");
}

#[test]
fn kitty_first_payload_of_large_data_is_its_prefix() {
    let data: Vec<u8> = (0..5000u32).map(|i| (i % 251) as u8).collect();
    let seq = encode_kitty(&data).unwrap();
    assert_eq!(extract_payload(&seq).unwrap(), data[..3072].to_vec());
}

#[test]
fn extract_payload_rejects_missing_parts() {
    assert_eq!(extract_payload("no escape"), None);
    assert_eq!(extract_payload("\x1b_Gabc\x1b\\"), None);
    assert_eq!(extract_payload("\x1b_G;\x1b\\"), None);
}

// ── sixel ─────────────────────────────────────────────────────────────────────

fn tiny_rgb_image(r: u8, g: u8, b: u8) -> RgbPixels {
    let mut data = Vec::new();
    for _ in 0..16 {
        data.extend_from_slice(&[r, g, b]);
    }
    RgbPixels { width: 4, height: 4, data }
}

#[test]
fn sixel_starts_with_dcs() {
    let img = tiny_rgb_image(255, 0, 0);
    let seq = encode_image_sixel(&img).unwrap();
    assert!(seq.starts_with("\x1bP"), "should start with ESC P (DCS): {seq:?}");
}

#[test]
fn sixel_ends_with_st() {
    let img = tiny_rgb_image(0, 255, 0);
    let seq = encode_image_sixel(&img).unwrap();
    assert!(seq.ends_with("\x1b\\"), "should end with ST");
}

#[test]
fn sixel_contains_q_intro() {
    let img = tiny_rgb_image(0, 0, 255);
    let seq = encode_image_sixel(&img).unwrap();
    assert!(seq.contains('q'), "sixel raster data starts with 'q'");
}

#[test]
fn sixel_contains_palette_entry() {
    let img = tiny_rgb_image(128, 64, 32);
    let seq = encode_image_sixel(&img).unwrap();
    assert!(seq.contains(";2;"), "palette entries use ;2; (RGB) format");
}

#[test]
fn sixel_raster_attributes_contain_dimensions() {
    let img = tiny_rgb_image(255, 255, 255);
    let seq = encode_image_sixel(&img).unwrap();
    assert!(seq.contains("\"1;1;4;4"), "raster attrs should encode 4x4");
}

#[test]
fn nearest_color_finds_exact_match() {
    let palette: Vec<[u8; 3]> = vec![[255, 0, 0], [0, 255, 0], [0, 0, 255]];
    assert_eq!(nearest_color(&[255, 0, 0], &palette), 0);
    assert_eq!(nearest_color(&[0, 255, 0], &palette), 1);
    assert_eq!(nearest_color(&[0, 0, 255], &palette), 2);
}

#[test]
fn palette_max_256_colors() {
    let mut data = Vec::new();
    for y in 0..64u32 {
        for x in 0..64u32 {
            data.extend_from_slice(&[(x * 4) as u8, (y * 4) as u8, 128]);
        }
    }
    let palette = build_palette(&data, 64 * 64);
    assert!(palette.len() <= MAX_COLORS, "palette should be ≤ {MAX_COLORS}");
}

#[test]
fn sixel_exact_single_pixel() {
    let img = RgbPixels { width: 1, height: 1, data: vec![255, 0, 0] };
    let seq = encode_image_sixel(&img).unwrap();
    assert_eq!(seq, "\x1bP0;0;0q\"1;1;1;1#0;2;100;0;0#0@$-\x1b\\");
}

#[test]
fn sixel_two_colors_two_bands() {
    // 1 wide, 7 tall: six black rows then one white row
    let mut data = Vec::new();
    for _ in 0..6 {
        data.extend_from_slice(&[0, 0, 0]);
    }
    data.extend_from_slice(&[255, 255, 255]);
    let img = RgbPixels { width: 1, height: 7, data };
    let seq = encode_image_sixel(&img).unwrap();
    assert_eq!(seq, "\x1bP0;0;0q\"1;1;1;7#0;2;0;0;0#1;2;100;100;100#0~$-#1@$-\x1b\\");
}

#[test]
fn sixel_zero_dimension_is_error() {
    let img = RgbPixels { width: 0, height: 3, data: vec![] };
    assert_eq!(encode_image_sixel(&img).unwrap_err(), "zero-dimension image");
}

#[test]
fn palette_sorted_distinct_first_seen() {
    let data = vec![9, 9, 9, 1, 2, 3, 9, 9, 9, 1, 2, 2];
    let palette = build_palette(&data, 4);
    assert_eq!(palette, vec![[1, 2, 2], [1, 2, 3], [9, 9, 9]]);
}

#[test]
fn nearest_color_prefers_first_of_equals() {
    let palette: Vec<[u8; 3]> = vec![[0, 0, 0], [2, 0, 0]];
    assert_eq!(nearest_color(&[1, 0, 0], &palette), 0);
    assert_eq!(nearest_color(&[2, 0, 1], &palette), 1);
}

fn preview_image(img: DynamicImage) -> PreviewImage {
    let mut buf = std::io::Cursor::new(Vec::new());
    img.write_to(&mut buf, image::ImageFormat::Png).unwrap();
    decode_image(&buf.into_inner()).unwrap()
}

#[test]
fn resize_to_cols_keeps_narrow_image() {
    let img_raw: RgbImage = ImageBuffer::from_pixel(300, 20, Rgb([1u8, 2, 3]));
    let resized = resize_to_cols(preview_image(DynamicImage::ImageRgb8(img_raw)), 80);
    assert_eq!(resized.width(), 300);
}

#[test]
fn encode_sixel_of_png_matches_pixel_encoding() {
    let png = tiny_png_bytes();
    let s = encode_sixel(&png).unwrap();
    let px = RgbPixels { width: 4, height: 4, data: [200u8, 100, 50].repeat(16) };
    assert_eq!(s, encode_image_sixel(&px).unwrap());
    assert!(encode_sixel(b"not an image").unwrap_err().starts_with("image load error: "));
}
