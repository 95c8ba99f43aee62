use insomnilog::decode::{decode_one, DecodedArg};
use insomnilog::encode::{
    custom_encoded_size, custom_value_size, encode_custom, encode_custom_value, CustomEncode, Encode, F32Bits, F64Bits,
    TypeTag,
};

fn encoded<T: Encode>(val: T, expected_tag: TypeTag) -> Vec<u8> {
    let mut buf = Vec::new();
    val.encode_to(&mut buf);
    assert_eq!(buf.len(), val.encoded_size());
    assert_eq!(buf[0], expected_tag.to_u8());
    buf
}

#[test]
fn typetag_tryfrom_roundtrip() {
    let tags = [
        TypeTag::I8,
        TypeTag::I16,
        TypeTag::I32,
        TypeTag::I64,
        TypeTag::I128,
        TypeTag::U8,
        TypeTag::U16,
        TypeTag::U32,
        TypeTag::U64,
        TypeTag::U128,
        TypeTag::F32,
        TypeTag::F64,
        TypeTag::Bool,
        TypeTag::Str,
        TypeTag::Usize,
        TypeTag::Isize,
        TypeTag::Custom,
    ];
    for tag in tags {
        let byte = tag.to_u8();
        let recovered = TypeTag::try_from(byte).expect("known tag must roundtrip");
        assert_eq!(recovered, tag);
    }
    assert!(TypeTag::try_from(17).is_err());
    assert!(TypeTag::try_from(u8::MAX).is_err());
}

#[test]
fn encode_bool_true() {
    let buf = encoded(true, TypeTag::Bool);
    assert_eq!(buf[1], 1);
}

#[test]
fn encode_bool_false() {
    let buf = encoded(false, TypeTag::Bool);
    assert_eq!(buf[1], 0);
}

#[test]
fn encode_str_ascii() {
    let buf = encoded("hello", TypeTag::Str);
    let len = u32::from_le_bytes(buf[1..5].try_into().unwrap()) as usize;
    assert_eq!(len, 5);
    assert_eq!(&buf[5..5 + len], b"hello");
}

#[test]
fn encode_str_empty() {
    let buf = encoded("", TypeTag::Str);
    let len = u32::from_le_bytes(buf[1..5].try_into().unwrap()) as usize;
    assert_eq!(len, 0);
    assert_eq!(buf.len(), 5);
}

#[test]
fn encode_str_unicode() {
    let val = "héllo";
    let buf = encoded(val, TypeTag::Str);
    let len = u32::from_le_bytes(buf[1..5].try_into().unwrap()) as usize;
    assert_eq!(len, val.len());
    assert_eq!(&buf[5..5 + len], val.as_bytes());
}

#[test]
fn encode_i32() {
    let val: i32 = -42;
    let buf = encoded(val, TypeTag::I32);
    assert_eq!(i32::from_le_bytes(buf[1..].try_into().unwrap()), val);
}

#[test]
fn encode_usize_takes_eight_bytes() {
    let buf = encoded(usize::MAX, TypeTag::Usize);
    assert_eq!(buf.len(), 9);
    assert_eq!(u64::from_le_bytes(buf[1..].try_into().unwrap()), usize::MAX as u64);
}

#[test]
fn encode_isize_is_twos_complement() {
    let buf = encoded(-2isize, TypeTag::Isize);
    assert_eq!(&buf[1..], &[0xFE, 0xFF, 0xFF, 0xFF, 0xFF, 0xFF, 0xFF, 0xFF]);
}

#[test]
fn encode_extremes_of_each_width() {
    assert_eq!(&encoded(i8::MIN, TypeTag::I8)[1..], &[0x80]);
    assert_eq!(&encoded(u16::MAX, TypeTag::U16)[1..], &[0xFF, 0xFF]);
    assert_eq!(&encoded(i64::MIN, TypeTag::I64)[1..], &i64::MIN.to_le_bytes());
    assert_eq!(&encoded(u128::MAX, TypeTag::U128)[1..], &u128::MAX.to_le_bytes());
    assert_eq!(&encoded(i128::MIN, TypeTag::I128)[1..], &i128::MIN.to_le_bytes());
}

#[test]
fn encode_f64_carries_bits() {
    let val = core::f64::consts::E;
    let buf = encoded(F64Bits(val.to_bits()), TypeTag::F64);
    assert_eq!(f64::from_le_bytes(buf[1..].try_into().unwrap()).to_bits(), val.to_bits());
}

#[test]
fn encode_custom_frames_decoder_and_payload() {
    let mut buf = vec![0xAB];
    encode_custom(&mut buf, 0x0102_0304, &[7, 8, 9]);
    assert_eq!(
        buf,
        vec![0xAB, 16, 4, 3, 2, 1, 0, 0, 0, 0, 3, 0, 0, 0, 7, 8, 9]
    );
    assert_eq!(custom_encoded_size(3), 16);
}

#[test]
fn encode_usize_roundtrip() {
    let val: usize = usize::MAX;
    let buf = encoded(val, TypeTag::Usize);
    assert_eq!(buf.len(), 1 + 8);
    assert_eq!(u64::from_le_bytes(buf[1..].try_into().unwrap()), val as u64);
}

#[test]
fn encode_isize_roundtrip() {
    let val: isize = isize::MIN;
    let buf = encoded(val, TypeTag::Isize);
    assert_eq!(buf.len(), 1 + 8);
    assert_eq!(i64::from_le_bytes(buf[1..].try_into().unwrap()), val as i64);
}

struct Color {
    r: u8,
    g: u8,
    b: u8,
}

impl CustomEncode for Color {
    fn payload_size(&self) -> usize {
        3
    }

    fn encode_payload(&self) -> Vec<u8> {
        vec![self.r, self.g, self.b]
    }

    fn decoder_id() -> u64 {
        1
    }
}

struct Point2D {
    x: f32,
    y: f32,
}

impl CustomEncode for Point2D {
    fn payload_size(&self) -> usize {
        8
    }

    fn encode_payload(&self) -> Vec<u8> {
        let mut out = self.x.to_le_bytes().to_vec();
        out.extend_from_slice(&self.y.to_le_bytes());
        out
    }

    fn decoder_id() -> u64 {
        2
    }
}

struct Marker;

impl CustomEncode for Marker {
    fn payload_size(&self) -> usize {
        0
    }

    fn encode_payload(&self) -> Vec<u8> {
        Vec::new()
    }

    fn decoder_id() -> u64 {
        3
    }
}

/// Turns the payload of each test type back into text, by its token.
fn resolve(decoder: u64, bytes: &[u8]) -> Option<String> {
    match decoder {
        1 => Some(format!("rgb({}, {}, {})", bytes[0], bytes[1], bytes[2])),
        2 => {
            let x = f32::from_le_bytes(bytes[..4].try_into().unwrap());
            let y = f32::from_le_bytes(bytes[4..].try_into().unwrap());
            Some(format!("({x}, {y})"))
        }
        3 => Some("marker".to_owned()),
        _ => None,
    }
}

fn encoded_custom<T: CustomEncode>(val: &T) -> Vec<u8> {
    let mut buf = Vec::new();
    assert!(encode_custom_value(val, &mut buf));
    assert_eq!(custom_value_size(val), Some(buf.len()));
    assert_eq!(buf[0], TypeTag::Custom.to_u8());
    buf
}

/// Splits the bytes after the tag into the decoder token and the payload.
fn unpack_custom(buf: &[u8]) -> (u64, &[u8]) {
    let decoder = u64::from_le_bytes(buf[..8].try_into().unwrap());
    let len = u32::from_le_bytes(buf[8..12].try_into().unwrap()) as usize;
    (decoder, &buf[12..12 + len])
}

#[test]
fn custom_color_decoder_output() {
    let val = Color { r: 255, g: 128, b: 0 };
    let buf = encoded_custom(&val);
    let (decoder, payload) = unpack_custom(&buf[1..]);
    assert_eq!(resolve(decoder, payload).unwrap(), "rgb(255, 128, 0)");
}

#[test]
fn custom_point2d_payload_bytes() {
    let val = Point2D { x: 1.5, y: -3.25 };
    let buf = encoded_custom(&val);
    let (_, payload) = unpack_custom(&buf[1..]);
    assert_eq!(f32::from_le_bytes(payload[..4].try_into().unwrap()).to_bits(), 1.5_f32.to_bits());
    assert_eq!(f32::from_le_bytes(payload[4..].try_into().unwrap()).to_bits(), (-3.25_f32).to_bits());
}

#[test]
fn custom_point2d_decoder_output() {
    let val = Point2D { x: 1.5, y: -3.25 };
    let buf = encoded_custom(&val);
    let (decoder, payload) = unpack_custom(&buf[1..]);
    let out = resolve(decoder, payload).unwrap();
    assert!(out.starts_with('('), "expected formatted point, got: {out:?}");
    assert!(out.contains("1.5"), "expected x=1.5 in output, got: {out:?}");
    assert!(out.contains("-3.25"), "expected y=-3.25 in output, got: {out:?}");
    let (arg, consumed) = decode_one(&buf, &resolve).unwrap();
    assert_eq!(consumed, buf.len());
    assert_eq!(arg, DecodedArg::Custom(out));
}

#[test]
fn custom_payload_slice_matches_payload_size() {
    let val = Color { r: 1, g: 2, b: 3 };
    let expected_payload_size = val.payload_size();
    let buf = encoded_custom(&val);
    let (_, payload) = unpack_custom(&buf[1..]);
    assert_eq!(payload.len(), expected_payload_size);
}

#[test]
fn custom_zero_payload_decoder_output() {
    let val = Marker;
    let buf = encoded_custom(&val);
    let (decoder, payload) = unpack_custom(&buf[1..]);
    assert!(payload.is_empty());
    assert_eq!(resolve(decoder, payload).unwrap(), "marker");
}

#[test]
fn custom_same_type_same_decoder_ptr() {
    let b1 = encoded_custom(&Color { r: 255, g: 0, b: 0 });
    let b2 = encoded_custom(&Color { r: 0, g: 255, b: 0 });
    assert_eq!(&b1[1..=8], &b2[1..=8], "same type must always produce the same decoder token bytes");
}

#[test]
fn custom_different_types_different_decoder_ptrs() {
    let bc = encoded_custom(&Color { r: 0, g: 0, b: 0 });
    let bp = encoded_custom(&Point2D { x: 0.0, y: 0.0 });
    let fnc = u64::from_le_bytes(bc[1..=8].try_into().unwrap());
    let fnp = u64::from_le_bytes(bp[1..=8].try_into().unwrap());
    assert_ne!(fnc, fnp, "different types must produce different decoder tokens");
}

/// Runs every in-tree encoder, and the user-defined encoding of each test
/// type, once.
fn exercise_all_encodes() {
    let mut buf = Vec::new();
    i8::MIN.encode_to(&mut buf);
    (-1000_i16).encode_to(&mut buf);
    (-42_i32).encode_to(&mut buf);
    i64::MIN.encode_to(&mut buf);
    i128::MIN.encode_to(&mut buf);
    u8::MAX.encode_to(&mut buf);
    u16::MAX.encode_to(&mut buf);
    u32::MAX.encode_to(&mut buf);
    u64::MAX.encode_to(&mut buf);
    u128::MAX.encode_to(&mut buf);
    F32Bits(core::f32::consts::PI.to_bits()).encode_to(&mut buf);
    F64Bits(core::f64::consts::E.to_bits()).encode_to(&mut buf);
    true.encode_to(&mut buf);
    usize::MAX.encode_to(&mut buf);
    isize::MIN.encode_to(&mut buf);
    "hello".encode_to(&mut buf);
    assert!(encode_custom_value(&Color { r: 1, g: 2, b: 3 }, &mut buf));
    assert!(encode_custom_value(&Point2D { x: 1.5, y: -3.25 }, &mut buf));
    assert!(encode_custom_value(&Marker, &mut buf));
    let expected = 2 + 3 + 5 + 9 + 17 + 2 + 3 + 5 + 9 + 17 + 5 + 9 + 2 + 9 + 9 + (5 + 5) + (13 + 3) + (13 + 8) + 13;
    assert_eq!(buf.len(), expected);

    assert_eq!(i32::MIN.encoded_size(), 5);
    assert_eq!("hello".encoded_size(), 10);
    assert_eq!(custom_value_size(&Color { r: 0, g: 0, b: 0 }), Some(16));
    assert_eq!((Color { r: 0, g: 0, b: 0 }).payload_size(), 3);
}

#[test]
fn encode_methods_are_nonblocking() {
    exercise_all_encodes();
}
