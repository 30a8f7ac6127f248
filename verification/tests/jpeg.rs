use moq::jpeg::frame_in_bounds;
use moq::video::{frame_pixels, test_frame, VIDEO_BYTES};

fn segment(marker: u8, body: &[u8]) -> Vec<u8> {
    let len = body.len() + 2;
    let mut bytes = vec![0xff, marker, (len >> 8) as u8, len as u8];
    bytes.extend_from_slice(body);
    bytes
}

/// A frame of 16 by 16 pixels, with the sampling of each component.
fn frame(marker: u8, sampling: &[u8]) -> Vec<u8> {
    let mut body = vec![8, 0, 16, 0, 16, sampling.len() as u8];
    for (i, factors) in sampling.iter().enumerate() {
        body.extend_from_slice(&[i as u8 + 1, *factors, 0]);
    }
    segment(marker, &body)
}

fn scan(components: u8, data: &[u8]) -> Vec<u8> {
    let mut body = vec![components];
    for i in 0..components {
        body.extend_from_slice(&[i + 1, 0]);
    }
    body.extend_from_slice(&[0, 63, 0]);
    let mut bytes = segment(0xda, &body);
    bytes.extend_from_slice(data);
    bytes
}

fn quantization(info: u8, first: u8) -> Vec<u8> {
    let mut body = vec![info, first];
    body.resize(65, 1);
    segment(0xdb, &body)
}

/// A Huffman table with one code, of one bit.
fn huffman(info: u8, symbol: u8) -> Vec<u8> {
    let mut body = vec![info, 1];
    body.resize(17, 0);
    body.push(symbol);
    segment(0xc4, &body)
}

fn image(parts: &[Vec<u8>]) -> Vec<u8> {
    let mut bytes = vec![0xff, 0xd8];
    for part in parts {
        bytes.extend_from_slice(part);
    }
    bytes
}

fn tables() -> Vec<u8> {
    let mut bytes = quantization(0, 1);
    bytes.extend_from_slice(&huffman(0x00, 0));
    bytes.extend_from_slice(&huffman(0x10, 0));
    bytes
}

const END: [u8; 4] = [0, 0, 0xff, 0xd9];

fn baseline(sampling: &[u8], components: u8) -> Vec<u8> {
    image(&[tables(), frame(0xc0, sampling), scan(components, &END)])
}

/// A frame is in bounds, and the decoder answers with pixels or an error.
fn is_answered(jpeg: &[u8]) {
    assert!(frame_in_bounds(jpeg));
    match frame_pixels(jpeg) {
        Ok(rgb) => assert_eq!(rgb.len(), VIDEO_BYTES),
        Err(e) => assert!(!e.to_string().is_empty()),
    }
}

#[test]
fn usual_sampling_is_in_bounds() {
    for first in [0x11, 0x21, 0x12, 0x22] {
        let jpeg = baseline(&[first, 0x11, 0x11], 3);
        assert!(frame_in_bounds(&jpeg));
        assert!(frame_pixels(&jpeg).is_ok());
    }
    for only in [0x11, 0x21, 0x12, 0x22, 0x44] {
        let grey = baseline(&[only], 1);
        assert!(frame_in_bounds(&grey));
        assert!(frame_pixels(&grey).is_ok());
    }
    let others: [&[u8]; 8] = [
        &[0x41, 0x11, 0x11],
        &[0x44, 0x11, 0x11],
        &[0x13, 0x11, 0x11],
        &[0x22, 0x12, 0x12],
        &[0x22, 0x22, 0x22],
        &[0x11, 0x11],
        &[0x11, 0x11, 0x11, 0x11],
        &[0x22, 0x11, 0x11, 0x22],
    ];
    for sampling in others {
        is_answered(&baseline(sampling, sampling.len() as u8));
    }
    is_answered(&image(&[tables(), frame(0xc2, &[0x11; 4]), scan(4, &END)]));
}

#[test]
fn other_sampling_is_out_of_bounds() {
    assert!(!frame_in_bounds(&baseline(&[0x11, 0x22, 0x22], 3)));
    assert!(!frame_in_bounds(&baseline(&[0x11, 0x22, 0x22], 1)));
    assert!(!frame_in_bounds(&baseline(&[0x21, 0x12, 0x11], 3)));
    assert!(!frame_in_bounds(&baseline(&[0x44, 0x22, 0x11], 3)));
    assert!(!frame_in_bounds(&baseline(&[0x22, 0x11, 0x21], 3)));
    assert!(!frame_in_bounds(&baseline(&[0x22, 0x11, 0x22, 0x21], 4)));
    let progressive = image(&[tables(), frame(0xc2, &[0x22; 4]), scan(4, &END)]);
    assert!(!frame_in_bounds(&progressive));
}

#[test]
fn a_single_component_that_is_sampled_often_is_not_too_wide() {
    let wide = |width: u16, sampling: u8| {
        let sides = [0, 8, (width >> 8) as u8, width as u8];
        let body = [&[8][..], &sides, &[1, 1, sampling, 0]].concat();
        image(&[tables(), segment(0xc0, &body), scan(1, &END)])
    };
    assert!(frame_in_bounds(&wide(65535, 0x11)));
    assert!(frame_in_bounds(&wide(65528, 0x22)));
    assert!(!frame_in_bounds(&wide(65529, 0x22)));
}

#[test]
fn components_may_come_in_scans_of_their_own() {
    for sampling in [[0x11, 0x11, 0x11], [0x22, 0x11, 0x11]] {
        let second = segment(0xda, &[1, 2, 0, 0, 63, 0]);
        let third = segment(0xda, &[1, 3, 0, 0, 63, 0]);
        let data = [vec![0; 8], second, vec![0; 8], third, vec![0; 8], END.to_vec()].concat();
        for marker in [0xc0, 0xc1, 0xc2] {
            let jpeg = image(&[tables(), frame(marker, &sampling), scan(1, &data)]);
            is_answered(&jpeg);
        }
    }
}

#[test]
fn markers_may_come_inside_a_scan() {
    let parts = |data: &[u8]| image(&[tables(), frame(0xc0, &[0x11]), scan(1, data)]);
    is_answered(&parts(&[1, 0xff, 0, 2, 0xff, 0xd0, 3, 0xff, 0xd7, 0xff]));
    is_answered(&parts(&[1, 0xff, 0xd9, 0xff, 0xc4]));
    is_answered(&parts(&[1, 0xff, 0xc4, 0, 2]));
    is_answered(&parts(&[1, 0xff, 0xff, 0xff, 0xd9]));
    is_answered(&parts(&[1, 0xff, 0xff, 0, 0xff, 0xd8, 0, 2]));
    is_answered(&parts(&[1, 0xff, 0xdd, 0, 4, 0, 1, 0xff, 0xda, 0, 8, 1, 1, 0, 0, 63, 0]));
}

/// An image of 2048 by 2048 pixels, which has 256 times 256 blocks.
fn large(head: &[Vec<u8>], data: &[u8]) -> Vec<u8> {
    let body = [8, 8, 0, 8, 0, 1, 1, 0x11, 0];
    image(&[head.concat(), huffman(0x10, 0), segment(0xc0, &body), scan(1, data)])
}

#[test]
fn the_means_of_large_images_have_to_fit() {
    let fits = |first: u8, bits: u8| {
        frame_in_bounds(&large(&[quantization(0, first), huffman(0, bits)], &END))
    };
    assert!(fits(16, 11));
    assert!(!fits(17, 11));
    assert!(fits(32, 10));
    assert!(!fits(33, 10));
    assert!(fits(1, 15));
    assert!(!fits(2, 15));
    assert!(fits(255, 0));
}

#[test]
fn every_scan_and_every_table_counts_for_the_means() {
    let twice = [vec![0], scan(1, &END)].concat();
    let fits = |first: u8, data: &[u8]| {
        frame_in_bounds(&large(&[quantization(0, first), huffman(0, 11)], data))
    };
    assert!(fits(8, &twice));
    assert!(!fits(9, &twice));
    let later = [vec![0], huffman(1, 12), END.to_vec()].concat();
    assert!(fits(8, &later[..10]));
    assert!(!fits(9, &later));

    let mut wide = vec![0x10, 0, 16];
    wide.resize(129, 1);
    let wide_fits = |body: &[u8]| {
        frame_in_bounds(&large(&[segment(0xdb, body), huffman(0, 11)], &END))
    };
    assert!(wide_fits(&wide));
    wide[1] = 1;
    assert!(!wide_fits(&wide));

    let first = quantization(0, 17);
    let film = segment(0xe0, b"AVI1\0\0");
    assert!(frame_in_bounds(&large(&[first.clone(), huffman(0, 0)], &END)));
    assert!(!frame_in_bounds(&large(&[film, first, huffman(0, 0)], &END)));
}

#[test]
fn colour_segments_are_out_of_bounds_where_they_can_mislead() {
    let adobe = segment(0xee, b"Adobe\0\x64\0\0\0\0\x02");
    let before = |marker: u8, sampling: &[u8]| {
        let scans = scan(sampling.len() as u8, &END);
        image(&[tables(), adobe.clone(), frame(marker, sampling), scans])
    };
    let after = |marker: u8, sampling: &[u8]| {
        let scans = scan(sampling.len() as u8, &END);
        image(&[tables(), frame(marker, sampling), adobe.clone(), scans])
    };
    assert!(!frame_in_bounds(&after(0xc2, &[0x11])));
    assert!(!frame_in_bounds(&after(0xc2, &[0x11, 0x11])));
    assert!(!frame_in_bounds(&before(0xc2, &[0x11, 0x11])));
    assert!(!frame_in_bounds(&after(0xc0, &[0x22])));
    is_answered(&after(0xc0, &[0x11]));
    is_answered(&before(0xc2, &[0x11]));
    is_answered(&before(0xc0, &[0x22]));
    for marker in [0xc0, 0xc2] {
        for sampling in [&[0x11; 3][..], &[0x22, 0x11, 0x11], &[0x11; 4]] {
            is_answered(&before(marker, sampling));
            is_answered(&after(marker, sampling));
        }
    }
}

#[test]
fn bytes_between_segments_are_passed_over() {
    let rest = [tables(), frame(0xc0, &[0x11]), scan(1, &END)].concat();
    let fillings: [&[u8]; 6] =
        [&[0xff], &[0], &[0xff, 0], &[0xff, 0xff, 0xff], &[1, 2, 3], &[0; 4]];
    for filling in fillings {
        let jpeg = image(&[filling.to_vec(), rest.clone()]);
        assert!(frame_in_bounds(&jpeg));
        assert!(frame_pixels(&jpeg).is_ok());
    }
    for body in [&b"JFI"[..], b"JFIF", b"JFIF\0", b"JFIF\0\x01\x01"] {
        is_answered(&image(&[segment(0xe0, body), rest.clone()]));
        is_answered(&image(&[segment(0xfe, body), rest.clone()]));
    }
    // A frame whose marker is hidden behind a stuffed byte is none.
    let sampled = frame(0xc0, &[0x11, 0x22, 0x22]);
    assert!(!frame_in_bounds(&image(&[tables(), sampled.clone(), scan(1, &END)])));
    let hidden = [vec![0xff, 0, 0xc0], sampled[2..].to_vec(), rest].concat();
    is_answered(&image(&[hidden]));
    is_answered(&[0xff, 0xd8, 0, 0, 0, 0]);
}

#[test]
fn what_the_decoder_refuses_is_in_bounds() {
    let refused = [
        image(&[]),
        image(&[vec![0xff, 0xd9, 0, 2]]),
        image(&[segment(0xcc, &[0; 3])]),
        image(&[segment(0xdc, &[0; 3])]),
        image(&[vec![0xff, 0xfe, 0, 1]]),
        image(&[vec![0xff, 0xfe, 0xff, 0xff, 1, 2, 3]]),
        image(&[frame(0xc0, &[0x44]), frame(0xc0, &[0x11])]),
        image(&[segment(0xc0, &[8, 0, 16, 0, 16, 2, 1, 0x11, 0])]),
        image(&[segment(0xc0, &[8])]),
        image(&[frame(0xc0, &[0x11; 5]), scan(1, &END)]),
        image(&[frame(0xc0, &[0x31]), scan(1, &END)]),
        image(&[frame(0xc0, &[0x10]), scan(1, &END)]),
        image(&[frame(0xc0, &[0x15]), scan(1, &END)]),
        image(&[scan(1, &END)]),
    ];
    for jpeg in refused {
        assert!(frame_in_bounds(&jpeg));
        assert!(frame_pixels(&jpeg).is_err());
    }
}

#[test]
fn the_start_of_a_frame_is_in_bounds() {
    let jpeg = test_frame(3);
    for n in 0..jpeg.len() {
        assert!(frame_in_bounds(&jpeg[..n]));
    }
}

#[test]
fn a_damaged_frame_in_bounds_is_read_or_refused() {
    let whole = baseline(&[0x22, 0x11, 0x11], 3);
    let mut tried = 0;
    for at in 2..whole.len() {
        for byte in [0x00, 0x7f, 0xff] {
            let mut jpeg = whole.clone();
            jpeg[at] = byte;
            if frame_in_bounds(&jpeg) {
                tried += 1;
                match image::load_from_memory_with_format(&jpeg, image::ImageFormat::Jpeg) {
                    Ok(img) => assert!(img.width() > 0),
                    Err(e) => assert!(!e.to_string().is_empty()),
                }
            }
        }
    }
    assert!(tried > 300);
}
