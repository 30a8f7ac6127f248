use bytes::{Bytes, BytesMut};
use moq::error::CodecError;
use moq::varint::VarInt;

fn encoded(v: u64) -> Vec<u8> {
    let mut buf = BytesMut::new();
    VarInt::from_u64(v).unwrap().encode(&mut buf);
    buf.to_vec()
}

#[test]
fn roundtrip() {
    let cases = [0u64, 1, 63, 64, 16383, 16384, (1 << 30) - 1, 1 << 30];
    for v in cases {
        let vi = VarInt::from_u64(v).unwrap();
        let mut buf = BytesMut::new();
        vi.encode(&mut buf);
        assert_eq!(buf.len(), vi.size());
        let decoded = VarInt::decode(&mut buf.freeze()).unwrap();
        assert_eq!(decoded.into_inner(), v);
    }
}

#[test]
fn three_hundred_takes_two_bytes() {
    assert_eq!(encoded(300), vec![0x41, 0x2C]);
    let mut buf = Bytes::from(vec![0x41, 0x2C]);
    assert_eq!(VarInt::decode(&mut buf).unwrap().into_inner(), 300);
    assert!(buf.is_empty());
}

#[test]
fn lengths_change_at_the_documented_values() {
    assert_eq!(encoded(63), vec![0x3f]);
    assert_eq!(encoded(64), vec![0x40, 0x40]);
    assert_eq!(encoded(16_383), vec![0x7f, 0xff]);
    assert_eq!(encoded(16_384), vec![0x80, 0x00, 0x40, 0x00]);
    assert_eq!(encoded(1_073_741_823), vec![0xbf, 0xff, 0xff, 0xff]);
    assert_eq!(encoded(1_073_741_824), vec![0xc0, 0, 0, 0, 0x40, 0, 0, 0]);
    assert_eq!(encoded(4_611_686_018_427_387_903), vec![0xff; 8]);
}

#[test]
fn from_u64_rejects_what_is_wider_than_62_bits() {
    assert_eq!(VarInt::from_u64(VarInt::MAX).unwrap().into_inner(), (1 << 62) - 1);
    match VarInt::from_u64(1 << 62) {
        Err(e) => {
            assert_eq!(e, CodecError::VarIntOverflow(1 << 62));
            assert_eq!(e.to_string(), "varint overflow: 4611686018427387904");
        }
        Ok(_) => panic!("accepted"),
    }
}

#[test]
fn decode_asks_for_a_first_byte() {
    match VarInt::decode(&mut Bytes::new()) {
        Err(e) => {
            assert_eq!(e, CodecError::VarIntMissing);
            assert_eq!(e.to_string(), "not enough data for varint");
        }
        Ok(_) => panic!("accepted"),
    }
}

#[test]
fn decode_asks_for_the_announced_bytes() {
    let mut buf = Bytes::from(vec![0xc0, 1, 2]);
    match VarInt::decode(&mut buf) {
        Err(e) => {
            assert_eq!(e, CodecError::VarIntTruncated(8));
            assert_eq!(e.to_string(), "not enough data for varint (need 8 bytes)");
        }
        Ok(_) => panic!("accepted"),
    }
    assert_eq!(buf.to_vec(), vec![0xc0, 1, 2]);
}

#[test]
fn decode_leaves_what_follows() {
    let mut buf = Bytes::from(vec![0x80, 0, 0, 7, 1, 2, 3]);
    assert_eq!(VarInt::decode(&mut buf).unwrap().into_inner(), 7);
    assert_eq!(buf.to_vec(), vec![1, 2, 3]);
}

#[test]
fn a_longer_form_than_needed_is_read() {
    let mut buf = Bytes::from(vec![0x40, 0x05]);
    let v = VarInt::decode(&mut buf).unwrap();
    assert_eq!(v.into_inner(), 5);
    assert_eq!(v.size(), 1);
}

#[test]
fn encode_appends() {
    let mut buf = BytesMut::new();
    VarInt::from(1u32).encode(&mut buf);
    VarInt::from(u32::MAX).encode(&mut buf);
    assert_eq!(buf.to_vec(), vec![1, 0xc0, 0, 0, 0, 0xff, 0xff, 0xff, 0xff]);
}

#[test]
fn shown_in_base_ten() {
    assert_eq!(VarInt::from(0u32).to_string(), "0");
    assert_eq!(VarInt::from(907u32).to_string(), "907");
    assert_eq!(format!("{:?}", VarInt::from(907u32)), "VarInt(907)");
    assert_eq!(VarInt::from_u64(VarInt::MAX).unwrap().to_string(), "4611686018427387903");
}
