use moq::jpeg::frame_in_bounds;
use moq::video::{
    frame_action, frame_pixels, test_frame, test_pattern, test_pattern_pixel, viewer_step,
    ViewerAction, ViewerEvent, JPEG_QUALITY, VIDEO_BYTES, VIDEO_HEIGHT, VIDEO_PITCH, VIDEO_WIDTH,
};

fn expected_pixel(x: u32, y: u32, frame: u64) -> [u8; 3] {
    let colors: [[u8; 3]; 7] = [
        [192, 192, 192],
        [192, 192, 0],
        [0, 192, 192],
        [0, 192, 0],
        [192, 0, 192],
        [192, 0, 0],
        [0, 0, 192],
    ];
    if y > 360 {
        if (frame * 4 + x as u64) % 640 < 320 {
            [255; 3]
        } else {
            [0; 3]
        }
    } else {
        colors[((x / 91) as usize).min(6)]
    }
}

#[test]
fn the_pattern_has_bars_and_a_moving_half() {
    for frame in [0, 1, 79, 80, 160, 1_000_003] {
        let rgb = test_pattern(frame);
        assert_eq!(rgb.len(), 640 * 480 * 3);
        for y in 0..480 {
            for x in 0..640 {
                let at = ((y * 640 + x) * 3) as usize;
                assert_eq!(rgb[at..at + 3], expected_pixel(x, y, frame));
            }
        }
    }
}

#[test]
fn pixels_at_the_edges() {
    assert_eq!(test_pattern_pixel(0, 0, 0), (192, 192, 192));
    assert_eq!(test_pattern_pixel(90, 360, 9), (192, 192, 192));
    assert_eq!(test_pattern_pixel(91, 0, 0), (192, 192, 0));
    assert_eq!(test_pattern_pixel(546, 0, 0), (0, 0, 192));
    assert_eq!(test_pattern_pixel(639, 0, 0), (0, 0, 192));
    assert_eq!(test_pattern_pixel(0, 361, 0), (255, 255, 255));
    assert_eq!(test_pattern_pixel(319, 361, 0), (255, 255, 255));
    assert_eq!(test_pattern_pixel(320, 361, 0), (0, 0, 0));
    assert_eq!(test_pattern_pixel(319, 361, 1), (0, 0, 0));
}

#[test]
fn sizes_agree() {
    assert_eq!(VIDEO_PITCH, VIDEO_WIDTH as usize * 3);
    assert_eq!(VIDEO_BYTES, VIDEO_PITCH * VIDEO_HEIGHT as usize);
    assert_eq!(JPEG_QUALITY, 80);
}

#[test]
fn a_frame_is_a_jpeg_of_the_pattern() {
    let jpeg = test_frame(5);
    assert_eq!(jpeg[..2], [0xff, 0xd8]);
    assert_eq!(jpeg[jpeg.len() - 2..], [0xff, 0xd9]);
    assert!(jpeg.len() < VIDEO_BYTES);
    assert_eq!(jpeg, test_frame(5));
    assert_ne!(jpeg, test_frame(6));
    let mut encoded = Vec::new();
    let pattern = image::RgbImage::from_raw(640, 480, test_pattern(5)).unwrap();
    pattern
        .write_with_encoder(image::codecs::jpeg::JpegEncoder::new_with_quality(&mut encoded, 80))
        .unwrap();
    assert_eq!(jpeg, encoded);
}

fn small_frame() -> Vec<u8> {
    let mut jpeg = Vec::new();
    let small = image::RgbImage::from_pixel(16, 8, image::Rgb([200, 10, 10]));
    small
        .write_with_encoder(image::codecs::jpeg::JpegEncoder::new_with_quality(&mut jpeg, 90))
        .unwrap();
    jpeg
}

#[test]
fn a_frame_is_shown_much_as_it_was_sent() {
    let frame = test_frame(5);
    assert!(frame_in_bounds(&frame));
    let shown = frame_pixels(&frame).unwrap();
    let sent = test_pattern(5);
    assert_eq!(shown.len(), VIDEO_BYTES);
    let far = shown.iter().zip(&sent).filter(|(a, b)| a.abs_diff(**b) > 40).count();
    assert!(far * 50 < VIDEO_BYTES);
    assert_eq!(shown, frame_pixels(&frame).unwrap());
}

#[test]
fn a_frame_is_shown_as_the_image_crate_reads_it() {
    let frame = test_frame(7);
    let read = image::load_from_memory_with_format(&frame, image::ImageFormat::Jpeg).unwrap();
    assert_eq!((read.width(), read.height()), (VIDEO_WIDTH, VIDEO_HEIGHT));
    assert_eq!(frame_pixels(&frame).unwrap(), read.to_rgb8().into_raw());
}

#[test]
fn a_frame_of_another_size_fills_the_window() {
    let jpeg = small_frame();
    assert!(frame_in_bounds(&jpeg));
    let shown = frame_pixels(&jpeg).unwrap();
    assert_eq!(shown.len(), VIDEO_BYTES);
    assert!(shown[0].abs_diff(200) < 20);
    assert!(shown[1].abs_diff(10) < 20);
}

#[test]
fn what_is_no_jpeg_is_not_shown() {
    let jpeg = test_frame(0);
    let cases: [&[u8]; 3] = [b"", b"hello", &jpeg[..20]];
    for bytes in cases {
        assert!(frame_in_bounds(bytes));
        assert!(frame_pixels(bytes).is_err());
    }
}

#[test]
fn viewers_show_warn_wait_and_stop() {
    assert!(matches!(viewer_step(ViewerEvent::Quit), ViewerAction::Stop));
    assert!(matches!(viewer_step(ViewerEvent::Nothing), ViewerAction::Wait));
    let frame = small_frame();
    let pixels = frame_pixels(&frame).unwrap();
    match viewer_step(ViewerEvent::Frame(frame)) {
        ViewerAction::Show(rgb) => assert_eq!(rgb, pixels),
        _ => panic!("not shown"),
    }
    let hello = b"hello".to_vec();
    assert!(matches!(viewer_step(ViewerEvent::Frame(hello)), ViewerAction::Warn(_)));
}

#[test]
fn what_was_read_decides_what_is_done_with_a_frame() {
    match frame_action(Ok(vec![1, 2, 3])) {
        ViewerAction::Show(rgb) => assert_eq!(rgb, vec![1, 2, 3]),
        _ => panic!("not shown"),
    }
    let error = frame_pixels(b"hello").unwrap_err();
    let text = error.to_string();
    match frame_action(Err(error)) {
        ViewerAction::Warn(e) => assert_eq!(e.to_string(), text),
        _ => panic!("not warned of"),
    }
}

#[test]
fn the_lower_part_moves_to_the_left() {
    for x in 0..600 {
        assert_eq!(test_pattern_pixel(x, 400, 8), test_pattern_pixel(x + 4, 400, 7));
        assert_eq!(test_pattern_pixel(x, 100, 8), test_pattern_pixel(x, 100, 7));
    }
}
