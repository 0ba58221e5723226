use std::cell::Cell;

use rengrave::bitmap::{
    bitmap_pixel_is_black, bitmap_trace_mask_and_stats, composite_over_white, decode_bitmap,
    image_to_native_potrace_bitmap, native_trace_settings, trace_content_bounds, BitmapBackend,
    BitmapError,
    BitmapTraceStats, TraceContentBounds,
};
use rengrave::potrace::TurnPolicy;
use rengrave::settings::{default_legacy_settings, LegacySettings};

fn filled(width: u32, height: u32, pixel: [u8; 4]) -> Vec<u8> {
    let mut data = Vec::new();
    for _ in 0..(width * height) {
        data.extend_from_slice(&pixel);
    }
    data
}

fn put(data: &mut [u8], width: u32, x: u32, y: u32, pixel: [u8; 4]) {
    let i = 4 * (y * width + x) as usize;
    data[i..i + 4].copy_from_slice(&pixel);
}

#[test]
fn bitmap_backend_always_resolves_to_native_rust() {
    let settings = default_legacy_settings();
    assert_eq!(
        BitmapBackend::from_settings(&settings),
        BitmapBackend::NativePotrace
    );

    let mut settings = settings;
    settings.set_or_push("bitmap_backend", "potrace-sidecar", false);
    assert_eq!(
        BitmapBackend::from_settings(&settings),
        BitmapBackend::NativePotrace
    );
    assert_eq!(BitmapBackend::NativePotrace.label(), "Native Rust");
}

#[test]
fn bitmap_backend_value_is_native_potrace() {
    assert_eq!(BitmapBackend::parse("vtracer").value(), "native-potrace");
    assert_eq!(BitmapBackend::parse("anything"), BitmapBackend::NativePotrace);
}

#[test]
fn trace_mask_matches_pbm_threshold_and_counts_full_image() {
    let data = vec![0, 0, 0, 255, 255, 255, 255, 255, 0, 0, 0, 0];

    let (mask, stats) = bitmap_trace_mask_and_stats(3, 1, &data);

    assert_eq!(&mask[0..4], &[0, 0, 0, 255]);
    assert_eq!(&mask[4..8], &[255, 255, 255, 255]);
    assert_eq!(&mask[8..12], &[255, 255, 255, 255]);
    assert_eq!(
        stats,
        BitmapTraceStats {
            black_pixels: 1,
            white_pixels: 2
        }
    );
}

#[test]
fn native_bitmap_conversion_trims_white_border_and_preserves_bits() {
    let mut data = filled(10, 3, [255, 255, 255, 255]);
    for x in 2..5 {
        let value = if x < 4 { 0 } else { 255 };
        put(&mut data, 10, x, 0, [value, value, value, 255]);
    }
    put(&mut data, 10, 2, 1, [0, 0, 0, 255]);

    let bitmap = image_to_native_potrace_bitmap(10, 3, &data, &|| false).unwrap();

    assert_eq!(bitmap.width(), 2);
    assert_eq!(bitmap.height(), 2);
    assert!(bitmap.get(0, 1));
    assert!(bitmap.get(1, 1));
    assert!(bitmap.get(0, 0));
    assert!(!bitmap.get(1, 0));
}

#[test]
fn fully_white_bitmap_converts_to_minimal_empty_native_bitmap() {
    let data = filled(4, 3, [255, 255, 255, 255]);

    let bitmap = image_to_native_potrace_bitmap(4, 3, &data, &|| false).unwrap();

    assert_eq!(bitmap.width(), 1);
    assert_eq!(bitmap.height(), 1);
    assert!(!bitmap.get(0, 0));
}

#[test]
fn native_potrace_bitmap_trims_to_content_bounds() {
    let mut data = filled(6, 5, [255, 255, 255, 255]);
    put(&mut data, 6, 2, 1, [0, 0, 0, 255]);
    put(&mut data, 6, 4, 3, [0, 0, 0, 255]);

    let bitmap = image_to_native_potrace_bitmap(6, 5, &data, &|| false).unwrap();

    assert_eq!(bitmap.width(), 3);
    assert_eq!(bitmap.height(), 3);
}

#[test]
fn transparent_pixels_composite_to_white_for_native_bitmap_conversion() {
    let data = vec![0, 0, 0, 0];

    let bitmap = image_to_native_potrace_bitmap(1, 1, &data, &|| false).unwrap();

    assert!(!bitmap.get(0, 0));
}

#[test]
fn native_bitmap_conversion_can_cancel_between_rows() {
    let data = filled(1, 3, [0, 0, 0, 255]);
    let calls = Cell::new(0usize);

    let err = image_to_native_potrace_bitmap(1, 3, &data, &|| {
        let next = calls.get() + 1;
        calls.set(next);
        next > 1
    })
    .unwrap_err();

    assert!(matches!(err, BitmapError::Canceled));
    assert!(calls.get() > 1);
}

#[test]
fn gif_inputs_decode_for_native_bitmap_conversion() {
    let gif = b"GIF89a\x01\x00\x01\x00\x80\x00\x00\x00\x00\x00\xff\xff\xff,\x00\x00\x00\x00\x01\x00\x01\x00\x00\x02\x02D\x01\x00;";
    let (width, height, data) = decode_bitmap("pixel.gif", gif).unwrap();

    let bitmap = image_to_native_potrace_bitmap(width, height, &data, &|| false).unwrap();

    assert_eq!(bitmap.width(), 1);
    assert_eq!(bitmap.height(), 1);
    assert!(bitmap.get(0, 0));
}

#[test]
fn undecodable_bytes_report_the_path() {
    let err = decode_bitmap("broken.png", b"not an image").unwrap_err();
    match &err {
        BitmapError::Decode { path, source } => {
            assert_eq!(path, "broken.png");
            assert!(!source.is_empty());
        }
        other => panic!("unexpected error {other:?}"),
    }
    assert!(err.message().starts_with("unable to decode bitmap `broken.png`: "));
}

#[test]
fn composite_over_white_blends_by_alpha() {
    assert_eq!(composite_over_white(0, 255), 0);
    assert_eq!(composite_over_white(0, 0), 255);
    assert_eq!(composite_over_white(100, 128), (100 * 128 + 255 * 127) / 255);
}

#[test]
fn threshold_is_luma_128() {
    assert!(bitmap_pixel_is_black([127, 127, 127, 255]));
    assert!(!bitmap_pixel_is_black([128, 128, 128, 255]));
    assert!(bitmap_pixel_is_black([255, 0, 0, 255]));
    assert!(!bitmap_pixel_is_black([0, 255, 0, 255]));
}

#[test]
fn content_bounds_are_the_box_around_black_pixels() {
    let mut data = filled(6, 5, [255, 255, 255, 255]);
    put(&mut data, 6, 2, 1, [0, 0, 0, 255]);
    put(&mut data, 6, 4, 3, [0, 0, 0, 255]);
    put(&mut data, 6, 1, 2, [0, 0, 0, 255]);
    let bounds = trace_content_bounds(6, 5, &data, &|| false).unwrap();
    assert_eq!(
        bounds,
        Some(TraceContentBounds {
            min_x: 1,
            min_y: 1,
            max_x: 4,
            max_y: 3
        })
    );
    let box_ = bounds.unwrap();
    assert_eq!(box_.width(), 4);
    assert_eq!(box_.height(), 3);

    let white = filled(3, 3, [255, 255, 255, 255]);
    assert_eq!(trace_content_bounds(3, 3, &white, &|| false).unwrap(), None);
}

#[test]
fn content_bounds_cancel_before_the_first_row() {
    let data = filled(2, 2, [0, 0, 0, 255]);
    assert_eq!(
        trace_content_bounds(2, 2, &data, &|| true).unwrap_err(),
        BitmapError::Canceled
    );
    assert_eq!(BitmapError::Canceled.message(), "bitmap vectorization canceled");
}

#[test]
fn trace_settings_read_turn_policy_and_turd_size() {
    let defaults = LegacySettings::parse("");
    assert_eq!(native_trace_settings(&defaults), (TurnPolicy::Minority, 2));
    let mut settings = LegacySettings::parse("");
    settings.set_or_push("bmp_turnp", "black", false);
    settings.set_or_push("bmp_turds", "-5", false);
    assert_eq!(native_trace_settings(&settings), (TurnPolicy::Black, -5));
    settings.set_or_push("bmp_turds", "2.5", false);
    assert_eq!(native_trace_settings(&settings), (TurnPolicy::Black, 2));
}

#[test]
fn unknown_image_extensions_are_reported_by_name() {
    let gif = b"GIF89a\x01\x00\x01\x00\x80\x00\x00\x00\x00\x00\xff\xff\xff,\x00\x00\x00\x00\x01\x00\x01\x00\x00\x02\x02D\x01\x00;";
    match decode_bitmap("pixel.xyz", gif).unwrap_err() {
        BitmapError::Decode { path, source } => {
            assert_eq!(path, "pixel.xyz");
            assert_eq!(
                source,
                "The file extension `.\"xyz\"` was not recognized as an image format"
            );
        }
        other => panic!("unexpected error: {other:?}"),
    }
    match decode_bitmap("pixel", gif).unwrap_err() {
        BitmapError::Decode { source, .. } => {
            assert_eq!(source, "The image format could not be determined");
        }
        other => panic!("unexpected error: {other:?}"),
    }
    match decode_bitmap("pixel.", gif).unwrap_err() {
        BitmapError::Decode { path, source } => {
            assert_eq!(path, "pixel.");
            assert_eq!(source, "The image format could not be determined");
        }
        other => panic!("unexpected error: {other:?}"),
    }
}
