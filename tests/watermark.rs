use watermark::color::{parse_rgba, Pattern};
use watermark::composite::{blend_channel, overlay, Raster};
use watermark::layout::{glyph_scale, repeated_text, row_offsets, row_spacing, row_step};
use watermark::output::{
    codec_for_extension, is_listed_lowercase, is_pdf_extension, is_pdf_lowercase,
    is_supported_extension, output_file_name, Codec,
};
use watermark::plan::{plan_watermark, WatermarkError, WatermarkPlan};

fn solid(width: u32, height: u32, px: [u8; 4]) -> Raster {
    let mut data = Vec::new();
    for _ in 0..(width * height) {
        data.extend_from_slice(&px);
    }
    Raster::from_rgba(width, height, data).unwrap()
}

fn plan_ok(w: u32, h: u32, text: &str, ts: i32, ss: i32) -> WatermarkPlan {
    match plan_watermark(w, h, text, ts, ss) {
        Ok(p) => p,
        Err(e) => panic!("unexpected error: {}", e.message()),
    }
}

#[test]
fn parse_rgba_four_components() {
    assert_eq!(parse_rgba("255,255,255,96"), Ok([255, 255, 255, 96]));
}

#[test]
fn parse_rgba_three_components_default_alpha() {
    assert_eq!(parse_rgba("1,2,3"), Ok([1, 2, 3, 64]));
}

#[test]
fn parse_rgba_plus_sign_and_leading_zero() {
    assert_eq!(parse_rgba("+5,007,0,255"), Ok([5, 7, 0, 255]));
}

#[test]
fn parse_rgba_too_few_components() {
    let msg = "Text color must have 3 or 4 components (R,G,B,A, with alpha being optional)";
    assert_eq!(parse_rgba("1,2"), Err(msg.to_string()));
    assert_eq!(parse_rgba(""), Err(msg.to_string()));
}

#[test]
fn parse_rgba_too_many_components() {
    let msg = "Text color must have 3 or 4 components (R,G,B,A, with alpha being optional)";
    assert_eq!(parse_rgba("1,2,3,4,5"), Err(msg.to_string()));
}

#[test]
fn parse_rgba_bad_component() {
    assert_eq!(
        parse_rgba("1,x,3"),
        Err("Invalid value for RGBA component: x".to_string())
    );
    assert_eq!(
        parse_rgba("1,2,256"),
        Err("Invalid value for RGBA component: 256".to_string())
    );
    assert_eq!(
        parse_rgba("1,,3"),
        Err("Invalid value for RGBA component: ".to_string())
    );
    assert_eq!(
        parse_rgba("1,-2,+,4"),
        Err("Invalid value for RGBA component: -2".to_string())
    );
}

#[test]
fn pattern_variants_are_distinct() {
    assert_ne!(Pattern::Diagonal, Pattern::CrossDiagonal);
    assert_eq!(Pattern::Random, Pattern::Random);
}

#[test]
fn glyph_scale_product_and_floor() {
    assert_eq!(glyph_scale(100, 100), 10_000);
    assert_eq!(glyph_scale(100, 0), 50);
    assert_eq!(glyph_scale(100, -5), 50);
    assert_eq!(glyph_scale(u32::MAX, i32::MAX), u32::MAX as i64 * i32::MAX as i64);
}

#[test]
fn row_spacing_product_and_floor() {
    assert_eq!(row_spacing(10_000, 1500), 15_000);
    assert_eq!(row_spacing(50, 1500), 1000);
    assert_eq!(row_spacing(1000, 1000), 1000);
    assert_eq!(row_spacing(1000, 1001), 1001);
}

#[test]
fn row_step_whole_pixels() {
    assert_eq!(row_step(15_000), 15);
    assert_eq!(row_step(1000), 1);
    assert_eq!(row_step(1999), 1);
    assert_eq!(row_step(i128::MAX), u32::MAX);
}

#[test]
fn row_offsets_cover_canvas() {
    let rows = row_offsets(200, 15);
    let expected: Vec<u32> = (0..14).map(|i| i * 15).collect();
    assert_eq!(rows, expected);
    assert!(*rows.last().unwrap() < 200);
}

#[test]
fn row_offsets_edges() {
    assert_eq!(row_offsets(0, 5), Vec::<u32>::new());
    assert_eq!(row_offsets(10, 10), vec![0]);
    assert_eq!(row_offsets(11, 10), vec![0, 10]);
    assert_eq!(row_offsets(3, 1), vec![0, 1, 2]);
    assert_eq!(row_offsets(5, u32::MAX), vec![0]);
}

#[test]
fn repeated_text_fills_width() {
    assert_eq!(repeated_text("X", 8), "X\tX\tX\tX\tX\t");
    assert_eq!(repeated_text("ab", 7), "ab\tab\tab\t");
    assert_eq!(repeated_text("hello", 6), "hello\thello\t");
    assert_eq!(repeated_text("X", 0), "X\t");
}

#[test]
fn repeated_text_never_empty() {
    assert_eq!(repeated_text("hello", 3), "hello\t");
    assert_eq!(repeated_text("hello", 5), "hello\t");
    let p = plan_ok(1, 1, "hello", 50, 1500);
    assert_eq!(p.line, "hello\t");
    assert!(p.line.len() > p.canvas_width as usize);
}

#[test]
fn plan_rejects_zero_dimensions() {
    assert!(matches!(
        plan_watermark(0, 10, "X", 50, 1500),
        Err(WatermarkError::InvalidDimensions)
    ));
    assert!(matches!(
        plan_watermark(10, 0, "X", 50, 1500),
        Err(WatermarkError::InvalidDimensions)
    ));
    assert_eq!(
        WatermarkError::InvalidDimensions.message(),
        "Image has invalid dimensions (width or height is 0)"
    );
}

#[test]
fn plan_rejects_oversized_canvas() {
    assert!(matches!(
        plan_watermark(u32::MAX / 2 + 1, 1, "X", 50, 1500),
        Err(WatermarkError::CanvasTooLarge)
    ));
    assert!(plan_watermark(1, u32::MAX / 2 + 1, "X", 0, 0).is_err());
}

#[test]
fn plan_canvas_is_twice_the_image() {
    let p = plan_ok(37, 11, "X", 50, 1500);
    assert_eq!((p.canvas_width, p.canvas_height), (74, 22));
    assert_eq!((p.offset_x, p.offset_y), (-18, -5));
}

#[test]
fn plan_red_square_scenario() {
    let p = plan_ok(100, 100, "X", 100, 1500);
    assert_eq!((p.canvas_width, p.canvas_height), (200, 200));
    assert_eq!(p.glyph_scale_milli, 10_000);
    assert_eq!(p.row_spacing_milli, 15_000);
    assert_eq!(p.row_step, 15);
    assert_eq!(p.rows.len(), 14);
    assert_eq!(p.rows[13], 195);
    assert_eq!(p.line, "X\t".repeat(101));
    assert_eq!((p.offset_x, p.offset_y), (-50, -50));
    assert_eq!(output_file_name("red", "png"), "red_watermarked.png");
}

#[test]
fn plan_tiny_scales_use_floors() {
    let p = plan_ok(10, 10, "X", 0, 0);
    assert_eq!(p.glyph_scale_milli, 50);
    assert_eq!(p.row_spacing_milli, 1000);
    assert_eq!(p.row_step, 1);
    assert_eq!(p.rows, (0..20).collect::<Vec<u32>>());
}

#[test]
fn plan_is_deterministic() {
    let a = plan_ok(64, 48, "Confidential", 50, 1500);
    let b = plan_ok(64, 48, "Confidential", 50, 1500);
    assert_eq!(a.rows, b.rows);
    assert_eq!(a.line, b.line);
    assert_eq!(a.glyph_scale_milli, b.glyph_scale_milli);
    assert_eq!((a.offset_x, a.offset_y), (b.offset_x, b.offset_y));
}

#[test]
fn blend_channel_values() {
    assert_eq!(blend_channel(100, 200, 0), 100);
    assert_eq!(blend_channel(100, 200, 255), 200);
    assert_eq!(blend_channel(0, 255, 96), 96);
    assert_eq!(blend_channel(255, 255, 96), 255);
    assert_eq!(blend_channel(255, 0, 128), 127);
}

#[test]
fn raster_rejects_wrong_length() {
    assert!(Raster::from_rgba(2, 2, vec![0; 15]).is_none());
    assert!(Raster::from_rgba(2, 2, vec![0; 16]).is_some());
    assert!(Raster::from_rgba(0, 5, vec![]).is_some());
}

#[test]
fn transparent_overlay_leaves_image_unchanged() {
    let mut img = solid(5, 4, [10, 20, 30, 200]);
    let before = img.data.clone();
    let top = solid(10, 8, [255, 255, 255, 0]);
    overlay(&mut img, &top, -2, -2);
    assert_eq!(img.data, before);
}

#[test]
fn opaque_overlay_replaces_colour_keeps_alpha() {
    let mut img = solid(2, 1, [255, 0, 0, 255]);
    let top = solid(1, 1, [0, 0, 255, 255]);
    overlay(&mut img, &top, 1, 0);
    assert_eq!(img.into_rgba(), vec![255, 0, 0, 255, 0, 0, 255, 255]);
}

#[test]
fn centred_overlay_marks_red_image() {
    let mut img = solid(4, 4, [255, 0, 0, 255]);
    let top = solid(8, 8, [255, 255, 255, 96]);
    overlay(&mut img, &top, -2, -2);
    for px in img.data.chunks(4) {
        assert_eq!(px, &[255, 96, 96, 255]);
    }
}

#[test]
fn overlay_partly_outside() {
    let mut img = solid(3, 1, [0, 0, 0, 77]);
    let top = solid(2, 1, [200, 100, 50, 255]);
    overlay(&mut img, &top, -1, 0);
    assert_eq!(img.data, vec![200, 100, 50, 77, 0, 0, 0, 77, 0, 0, 0, 77]);
}

#[test]
fn codec_follows_input_extension() {
    assert_eq!(codec_for_extension("png", 90), Codec::Png);
    assert_eq!(codec_for_extension("jpg", 90), Codec::Jpeg { quality: 90 });
    assert_eq!(codec_for_extension("jpeg", 75), Codec::Jpeg { quality: 75 });
    assert_eq!(codec_for_extension("webp", 90), Codec::WebpLossless);
    assert_eq!(codec_for_extension("PNG", 90), Codec::Jpeg { quality: 90 });
    assert_eq!(codec_for_extension("", 10), Codec::Jpeg { quality: 10 });
    assert_eq!(codec_for_extension("bmp", 1), Codec::Jpeg { quality: 1 });
}

#[test]
fn png_and_jpg_outputs_keep_their_codec_and_name() {
    assert_eq!(codec_for_extension("png", 90), Codec::Png);
    assert_eq!(output_file_name("a", "png"), "a_watermarked.png");
    assert_eq!(codec_for_extension("jpg", 90), Codec::Jpeg { quality: 90 });
    assert_eq!(output_file_name("a", "jpg"), "a_watermarked.jpg");
}

#[test]
fn supported_extensions_ignore_case() {
    assert!(is_supported_extension("JPG"));
    assert!(is_supported_extension("Jpeg"));
    assert!(is_supported_extension("webp"));
    assert!(is_supported_extension("PDF"));
    assert!(!is_supported_extension("txt"));
    assert!(!is_supported_extension(""));
    assert!(is_listed_lowercase("png"));
    assert!(!is_listed_lowercase("PNG"));
}

#[test]
fn pdf_extension_ignores_case() {
    assert!(is_pdf_extension("PDF"));
    assert!(is_pdf_extension("pdf"));
    assert!(!is_pdf_extension("png"));
    assert!(is_pdf_lowercase("pdf"));
    assert!(!is_pdf_lowercase("Pdf"));
}
