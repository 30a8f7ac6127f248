//! The video track: a test pattern to publish, and frames to show.

use image::ImageError;
use vstd::prelude::*;

use crate::jpeg::jpeg_in_bounds;

verus! {

pub const VIDEO_WIDTH: u32 = 640;

pub const VIDEO_HEIGHT: u32 = 480;

pub const VIDEO_FPS: u64 = 15;

/// How many bytes a row of pixels takes.
pub const VIDEO_PITCH: usize = 1920;

/// How many bytes a frame of pixels takes.
pub const VIDEO_BYTES: usize = 921_600;

/// The quality that frames are compressed with, out of a hundred.
pub const JPEG_QUALITY: u8 = 80;

/// `image::ImageError`, opaque.
#[verifier::external_type_specification]
#[verifier::external_body]
pub struct ExImageError(image::ImageError);

/// What `JpegEncoder` makes of an image: rows of pixels, each of a red, a green
/// and a blue byte, compressed with this quality.
pub uninterp spec fn jpeg_encoding(rgb: Seq<u8>, width: u32, height: u32, quality: u8) -> Seq<u8>;

/// `JpegEncoder::new_with_quality` and `JpegEncoder::encode`, into a vector. An
/// image whose sides fit in 16 bits and are not zero is always encoded: the
/// only other errors are those of the writer, and a vector has none. It is encoded
/// as a baseline image of three components, sampled alike, in one scan without
/// restarts, with the usual Huffman tables. So, if it is not too large and not
/// compressed too much, the decoder can be given it.
#[verifier::external_body]
fn jpeg_encode(rgb: &[u8], width: u32, height: u32, quality: u8) -> (r: Result<
    Vec<u8>,
    ImageError,
>)
    requires
        0 < width <= 0xffff,
        0 < height <= 0xffff,
        rgb@.len() == width * height * 3,
    ensures
        r is Ok,
        r->Ok_0@ == jpeg_encoding(rgb@, width, height, quality),
        width <= 1024 && height <= 1024 && quality >= 50 ==> jpeg_in_bounds(r->Ok_0@),
{
    let mut jpeg = Vec::new();
    image::codecs::jpeg::JpegEncoder::new_with_quality(&mut jpeg, quality)
        .encode(rgb, width, height, image::ExtendedColorType::Rgb8)?;
    Ok(jpeg)
}

/// Whether `image::load_from_memory_with_format` reads an image out of bytes in
/// the JPEG format.
pub uninterp spec fn jpeg_readable(jpeg: Seq<u8>) -> bool;

/// The pixels of an image in the JPEG format, scaled to these sides: what
/// `image::load_from_memory_with_format` reads, `DynamicImage::resize_exact` scales
/// to the nearest pixel and `DynamicImage::to_rgb8` hands out, row by row.
pub uninterp spec fn jpeg_pixels(jpeg: Seq<u8>, width: u32, height: u32) -> Seq<u8>;

/// `image::load_from_memory_with_format`, `DynamicImage::resize_exact` to the
/// nearest pixel and `DynamicImage::to_rgb8`: the pixels of a compressed image,
/// scaled to these sides. Only the first of the three can fail, and whether it
/// does depends on the bytes alone, as do the pixels that come out: the decoder's
/// arithmetic for each kind of processor gives the same bits. On bytes that are
/// not in bounds the first may panic instead.
#[verifier::external_body]
fn jpeg_decode(jpeg: &[u8], width: u32, height: u32) -> (r: Result<Vec<u8>, ImageError>)
    requires
        0 < width <= 1024,
        0 < height <= 1024,
        jpeg_in_bounds(jpeg@),
    ensures
        r is Ok <==> jpeg_readable(jpeg@),
        r matches Ok(rgb) ==> rgb@ == jpeg_pixels(jpeg@, width, height),
        r matches Ok(rgb) ==> rgb@.len() == width * height * 3,
{
    let img = image::load_from_memory_with_format(jpeg, image::ImageFormat::Jpeg)?;
    let filter = image::imageops::FilterType::Nearest;
    Ok(img.resize_exact(width, height, filter).to_rgb8().into_raw())
}

/// The colour of a bar: grey, yellow, cyan, green, magenta, red, blue.
pub open spec fn bar_color(bar: int) -> (u8, u8, u8) {
    if bar == 0 {
        (192, 192, 192)
    } else if bar == 1 {
        (192, 192, 0)
    } else if bar == 2 {
        (0, 192, 192)
    } else if bar == 3 {
        (0, 192, 0)
    } else if bar == 4 {
        (192, 0, 192)
    } else if bar == 5 {
        (192, 0, 0)
    } else {
        (0, 0, 192)
    }
}

/// A pixel of the test pattern: seven upright bars, and in the lowest quarter a
/// white half and a black half that move four pixels to the left with each frame.
pub open spec fn pattern_pixel(x: int, y: int, frame: int) -> (u8, u8, u8) {
    if y > 360 {
        if (frame * 4 + x) % 640 < 320 {
            (255, 255, 255)
        } else {
            (0, 0, 0)
        }
    } else {
        bar_color(x / 91)
    }
}

/// A byte of a pixel: red, green or blue.
pub open spec fn channel(pixel: (u8, u8, u8), k: int) -> u8 {
    if k == 0 {
        pixel.0
    } else if k == 1 {
        pixel.1
    } else {
        pixel.2
    }
}

/// The bytes of the test pattern, pixel by pixel and row by row.
pub open spec fn pattern_bytes(frame: int) -> Seq<u8> {
    Seq::new(
        VIDEO_BYTES as nat,
        |i: int| channel(pattern_pixel((i / 3) % 640, i / 3 / 640, frame), i % 3),
    )
}

/// From one frame to the next the bars stay, and below them everything moves four
/// pixels to the left.
pub proof fn pattern_moves(x: int, y: int, frame: int)
    ensures
        y <= 360 ==> pattern_pixel(x, y, frame + 1) == pattern_pixel(x, y, frame),
        y > 360 ==> pattern_pixel(x, y, frame + 1) == pattern_pixel(x + 4, y, frame),
{
}

/// Above the lowest quarter the picture is seven upright bars of a colour each, 91
/// pixels wide but for the last, which takes the rest of the row. They are the same in
/// every row and in every frame.
pub proof fn pattern_has_bars(x: int, y: int, frame: int)
    requires
        0 <= x,
        0 <= y <= 360,
    ensures
        pattern_pixel(x, y, frame) == pattern_pixel(x, 0, 0),
        x < 91 ==> pattern_pixel(x, y, frame) == (192u8, 192u8, 192u8),
        91 <= x < 182 ==> pattern_pixel(x, y, frame) == (192u8, 192u8, 0u8),
        182 <= x < 273 ==> pattern_pixel(x, y, frame) == (0u8, 192u8, 192u8),
        273 <= x < 364 ==> pattern_pixel(x, y, frame) == (0u8, 192u8, 0u8),
        364 <= x < 455 ==> pattern_pixel(x, y, frame) == (192u8, 0u8, 192u8),
        455 <= x < 546 ==> pattern_pixel(x, y, frame) == (192u8, 0u8, 0u8),
        546 <= x ==> pattern_pixel(x, y, frame) == (0u8, 0u8, 192u8),
{
}

/// In the lowest quarter half of each row is white and the other half black, at first
/// the left and the right one. The picture there is back where it was after 160 frames.
pub proof fn pattern_has_two_halves(x: int, y: int, frame: int)
    requires
        y > 360,
    ensures
        pattern_pixel(x, y, frame) == (255u8, 255u8, 255u8) || pattern_pixel(x, y, frame) == (
            0u8,
            0u8,
            0u8,
        ),
        pattern_pixel(x, y, frame) == (255u8, 255u8, 255u8) <==> pattern_pixel(x + 320, y, frame)
            == (0u8, 0u8, 0u8),
        0 <= x < 320 ==> pattern_pixel(x, y, 0) == (255u8, 255u8, 255u8),
        320 <= x < 640 ==> pattern_pixel(x, y, 0) == (0u8, 0u8, 0u8),
        pattern_pixel(x, y, frame) == pattern_pixel(x + 4 * frame, y, 0),
        pattern_pixel(x, y, frame + 160) == pattern_pixel(x, y, frame),
{
}

/// The bytes of a frame are the red, the green and the blue byte of each pixel, row by
/// row from the top and in each row from the left.
pub proof fn pattern_bytes_layout(x: int, y: int, frame: int)
    requires
        0 <= x < 640,
        0 <= y < 480,
    ensures
        pattern_bytes(frame).len() == 640 * 480 * 3,
        ({
            let i = (y * 640 + x) * 3;
            pattern_pixel(x, y, frame) == (
                pattern_bytes(frame)[i],
                pattern_bytes(frame)[i + 1],
                pattern_bytes(frame)[i + 2],
            )
        }),
{
    let n = y * 640 + x;
    assert(n % 640 == x && n / 640 == y);
    assert((n * 3) / 3 == n && (n * 3 + 1) / 3 == n && (n * 3 + 2) / 3 == n);
}

/// A pixel of the test pattern.
pub fn test_pattern_pixel(x: u32, y: u32, frame_count: u64) -> (pixel: (u8, u8, u8))
    requires
        frame_count * 4 + x <= u64::MAX,
    ensures
        pixel == pattern_pixel(x as int, y as int, frame_count as int),
{
    let bar = x / (VIDEO_WIDTH / 7);
    if y > VIDEO_HEIGHT * 3 / 4 {
        let scroll = (frame_count * 4 + x as u64) % VIDEO_WIDTH as u64;
        let brightness: u8 = if scroll < (VIDEO_WIDTH / 2) as u64 { 255 } else { 0 };
        (brightness, brightness, brightness)
    } else if bar == 0 {
        (192, 192, 192)
    } else if bar == 1 {
        (192, 192, 0)
    } else if bar == 2 {
        (0, 192, 192)
    } else if bar == 3 {
        (0, 192, 0)
    } else if bar == 4 {
        (192, 0, 192)
    } else if bar == 5 {
        (192, 0, 0)
    } else {
        (0, 0, 192)
    }
}

/// The test pattern of a frame.
pub fn test_pattern(frame_count: u64) -> (rgb: Vec<u8>)
    requires
        frame_count * 4 + 639 <= u64::MAX,
    ensures
        rgb@ == pattern_bytes(frame_count as int),
{
    let ghost whole = pattern_bytes(frame_count as int);
    let mut rgb: Vec<u8> = Vec::new();
    let mut i: u32 = 0;
    while i < VIDEO_WIDTH * VIDEO_HEIGHT
        invariant
            i <= 307_200,
            frame_count * 4 + 639 <= u64::MAX,
            whole == pattern_bytes(frame_count as int),
            rgb@ == whole.take(3 * i),
        decreases 307_200 - i,
    {
        let (r, g, b) = test_pattern_pixel(i % VIDEO_WIDTH, i / VIDEO_WIDTH, frame_count);
        rgb.push(r);
        rgb.push(g);
        rgb.push(b);
        proof {
            assert(whole[3 * i] == r);
            assert(whole[3 * i + 1] == g);
            assert(whole[3 * i + 2] == b);
            assert(rgb@ =~= whole.take(3 * (i + 1)));
        }
        i = i + 1;
    }
    assert(whole.take(VIDEO_BYTES as int) =~= whole);
    rgb
}

/// The test pattern of a frame, compressed: a frame that a viewer can be given.
pub fn test_frame(frame_count: u64) -> (jpeg: Vec<u8>)
    requires
        frame_count * 4 + 639 <= u64::MAX,
    ensures
        jpeg@ == jpeg_encoding(
            pattern_bytes(frame_count as int),
            VIDEO_WIDTH,
            VIDEO_HEIGHT,
            JPEG_QUALITY,
        ),
        jpeg_in_bounds(jpeg@),
{
    let rgb = test_pattern(frame_count);
    jpeg_encode(rgb.as_slice(), VIDEO_WIDTH, VIDEO_HEIGHT, JPEG_QUALITY).unwrap()
}

/// The pixels to show of a received frame, if it holds an image: exactly as many
/// as the window has.
pub fn frame_pixels(payload: &[u8]) -> (r: Result<Vec<u8>, ImageError>)
    requires
        jpeg_in_bounds(payload@),
    ensures
        r is Ok <==> jpeg_readable(payload@),
        r matches Ok(rgb) ==> rgb@ == jpeg_pixels(payload@, VIDEO_WIDTH, VIDEO_HEIGHT),
        r matches Ok(rgb) ==> rgb@.len() == VIDEO_BYTES,
{
    jpeg_decode(payload, VIDEO_WIDTH, VIDEO_HEIGHT)
}

/// What a viewer meets in a turn of its loop.
pub enum ViewerEvent {
    /// The window was closed, or Escape was pressed in it.
    Quit,
    /// No frame came in time, or none could be received.
    Nothing,
    /// A frame came.
    Frame(Vec<u8>),
}

/// What a viewer does in a turn of its loop.
pub enum ViewerAction {
    /// Ends.
    Stop,
    /// Goes on.
    Wait,
    /// Shows these pixels.
    Show(Vec<u8>),
    /// Warns that the frame holds no image, and goes on.
    Warn(ImageError),
}

/// What a viewer does with a frame, given what was read out of it.
pub fn frame_action(pixels: Result<Vec<u8>, ImageError>) -> (action: ViewerAction)
    ensures
        action == match pixels {
            Ok(rgb) => ViewerAction::Show(rgb),
            Err(e) => ViewerAction::Warn(e),
        },
{
    match pixels {
        Ok(rgb) => ViewerAction::Show(rgb),
        Err(e) => ViewerAction::Warn(e),
    }
}

/// One turn of the viewer's loop: a frame that holds an image is shown, one that
/// does not is warned of, and only a request to quit ends the loop.
pub fn viewer_step(event: ViewerEvent) -> (action: ViewerAction)
    requires
        event matches ViewerEvent::Frame(payload) ==> jpeg_in_bounds(payload@),
    ensures
        event is Quit ==> action is Stop,
        event is Nothing ==> action is Wait,
        event matches ViewerEvent::Frame(payload) ==> if jpeg_readable(payload@) {
            action matches ViewerAction::Show(rgb) && rgb@ == jpeg_pixels(
                payload@,
                VIDEO_WIDTH,
                VIDEO_HEIGHT,
            ) && rgb@.len() == VIDEO_BYTES
        } else {
            action is Warn
        },
{
    match event {
        ViewerEvent::Quit => ViewerAction::Stop,
        ViewerEvent::Nothing => ViewerAction::Wait,
        ViewerEvent::Frame(payload) => frame_action(frame_pixels(payload.as_slice())),
    }
}

} // verus!
