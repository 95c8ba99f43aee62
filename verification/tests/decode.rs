use insomnilog::decode::{decode_one, decode_record, render_args, DecodeError, DecodedArg};
use insomnilog::encode::{custom_value_size, encode_custom, encode_custom_value, CustomEncode, Encode, TypeTag};
use insomnilog::record::RecordHeader;

fn no_custom(_decoder: u64, _payload: &[u8]) -> Option<String> {
    None
}

fn encode<T: Encode>(val: T) -> Vec<u8> {
    let mut buf = Vec::new();
    val.encode_to(&mut buf);
    buf
}

#[test]
fn decode_decode_str_roundtrip() {
    let val: &str = "world";
    let buf = encode(val);
    let (arg, consumed) = decode_one(&buf, &no_custom).unwrap();
    assert_eq!(consumed, val.encoded_size());
    assert_eq!(arg, DecodedArg::Str("world".to_owned()));
}

#[test]
fn decode_fixed_i32_roundtrip() {
    let buf = encode(-999i32);
    let (arg, consumed) = decode_one(&buf, &no_custom).unwrap();
    assert_eq!(consumed, 5);
    assert_eq!(arg, DecodedArg::I32(-999));
}

#[test]
fn decode_every_fixed_width_type() {
    assert_eq!(decode_one(&encode(i8::MIN), &no_custom).unwrap(), (DecodedArg::I8(i8::MIN), 2));
    assert_eq!(
        decode_one(&encode(-1_000i16), &no_custom).unwrap(),
        (DecodedArg::I16(-1_000), 3)
    );
    assert_eq!(
        decode_one(&encode(i64::MIN), &no_custom).unwrap(),
        (DecodedArg::I64(i64::MIN), 9)
    );
    assert_eq!(
        decode_one(&encode(i128::MIN), &no_custom).unwrap(),
        (DecodedArg::I128(i128::MIN), 17)
    );
    assert_eq!(decode_one(&encode(u8::MAX), &no_custom).unwrap(), (DecodedArg::U8(u8::MAX), 2));
    assert_eq!(
        decode_one(&encode(u16::MAX), &no_custom).unwrap(),
        (DecodedArg::U16(u16::MAX), 3)
    );
    assert_eq!(
        decode_one(&encode(u32::MAX), &no_custom).unwrap(),
        (DecodedArg::U32(u32::MAX), 5)
    );
    assert_eq!(
        decode_one(&encode(u64::MAX), &no_custom).unwrap(),
        (DecodedArg::U64(u64::MAX), 9)
    );
    assert_eq!(
        decode_one(&encode(u128::MAX), &no_custom).unwrap(),
        (DecodedArg::U128(u128::MAX), 17)
    );
    assert_eq!(
        decode_one(&encode(usize::MAX), &no_custom).unwrap(),
        (DecodedArg::Usize(usize::MAX as u64), 9)
    );
    assert_eq!(
        decode_one(&encode(isize::MIN), &no_custom).unwrap(),
        (DecodedArg::Isize(isize::MIN as i64), 9)
    );
}

#[test]
fn decode_bool_values() {
    assert_eq!(decode_one(&encode(true), &no_custom).unwrap(), (DecodedArg::Bool(true), 2));
    assert_eq!(decode_one(&encode(false), &no_custom).unwrap(), (DecodedArg::Bool(false), 2));
}

#[test]
fn decode_one_empty_slice_returns_err() {
    assert!(decode_one(&[], &no_custom).is_err());
}

#[test]
fn decode_one_unknown_tag_returns_err() {
    assert!(decode_one(&[17], &no_custom).is_err());
    assert!(decode_one(&[u8::MAX], &no_custom).is_err());
    assert_eq!(decode_one(&[17], &no_custom), Err(DecodeError::UnknownTag(17)));
}

#[test]
fn decode_one_truncated_fixed_returns_err() {
    assert!(decode_one(&[TypeTag::I32.to_u8()], &no_custom).is_err());
    assert!(decode_one(&[TypeTag::I32.to_u8(), 0, 0, 0], &no_custom).is_err());
}

#[test]
fn decode_one_truncated_str_returns_err() {
    let mut buf = [0u8; 5];
    buf[0] = TypeTag::Str.to_u8();
    let len: u32 = 10;
    buf[1..5].copy_from_slice(&len.to_le_bytes());
    assert!(decode_one(&buf, &no_custom).is_err());
    assert_eq!(decode_one(&buf, &no_custom), Err(DecodeError::BufferTooShort));
}

#[test]
fn decode_one_invalid_utf8_returns_err() {
    let buf = [TypeTag::Str.to_u8(), 2, 0, 0, 0, 0xC3, 0x28];
    assert_eq!(decode_one(&buf, &no_custom), Err(DecodeError::InvalidUtf8));
}

fn color_resolver(decoder: u64, payload: &[u8]) -> Option<String> {
    match decoder {
        1 => Some(format!("rgb({}, {}, {})", payload[0], payload[1], payload[2])),
        2 => Some("empty".to_owned()),
        _ => None,
    }
}

#[test]
fn decode_custom_manual_color() {
    let mut buf = Vec::new();
    encode_custom(&mut buf, 1, &[255, 128, 0]);
    let (arg, consumed) = decode_one(&buf, &color_resolver).unwrap();
    assert_eq!(consumed, buf.len());
    assert_eq!(arg, DecodedArg::Custom("rgb(255, 128, 0)".to_owned()));
}

#[test]
fn decode_custom_manual_zero_payload() {
    let mut buf = Vec::new();
    encode_custom(&mut buf, 2, &[]);
    let (arg, consumed) = decode_one(&buf, &color_resolver).unwrap();
    assert_eq!(consumed, buf.len());
    assert_eq!(arg, DecodedArg::Custom("empty".to_owned()));
}

#[test]
fn decode_custom_unknown_decoder_fails() {
    let mut buf = Vec::new();
    encode_custom(&mut buf, 99, &[1]);
    assert_eq!(decode_one(&buf, &color_resolver), Err(DecodeError::DecoderFailed));
}

#[test]
fn decoded_arg_custom_display() {
    let arg = DecodedArg::Custom("rgb(1, 2, 3)".to_owned());
    assert_eq!(arg.render(), Some("rgb(1, 2, 3)".to_owned()));
}

#[test]
fn render_gives_decimal_and_bool_text() {
    assert_eq!(DecodedArg::I64(-42).render(), Some("-42".to_owned()));
    assert_eq!(DecodedArg::I128(i128::MIN).render(), Some(i128::MIN.to_string()));
    assert_eq!(DecodedArg::U128(u128::MAX).render(), Some(u128::MAX.to_string()));
    assert_eq!(DecodedArg::U8(0).render(), Some("0".to_owned()));
    assert_eq!(DecodedArg::Bool(false).render(), Some("false".to_owned()));
    assert_eq!(DecodedArg::F64(1.5f64.to_bits()).render(), None);
}

#[test]
fn render_args_hands_floats_to_the_caller() {
    let args = vec![DecodedArg::U32(7), DecodedArg::F32(2.5f32.to_bits())];
    let texts = render_args(&args, &|a: &DecodedArg| match a {
        DecodedArg::F32(b) => f32::from_bits(*b).to_string(),
        _ => String::new(),
    });
    assert_eq!(texts, vec!["7".to_owned(), "2.5".to_owned()]);
}

#[test]
fn decode_record_reads_header_and_args_in_order() {
    let mut buf = Vec::new();
    let mut args = Vec::new();
    7u32.encode_to(&mut args);
    "hi".encode_to(&mut args);
    RecordHeader::new(55, 0x1000, args.len() as u32).write_to(&mut buf);
    buf.extend_from_slice(&args);
    let rec = decode_record(&buf, &no_custom).unwrap();
    assert_eq!(rec.timestamp_ns, 55);
    assert_eq!(rec.metadata_ptr, 0x1000);
    assert_eq!(rec.args, vec![DecodedArg::U32(7), DecodedArg::Str("hi".to_owned())]);
}

#[test]
fn decode_record_short_args_is_buffer_too_short() {
    let mut buf = Vec::new();
    RecordHeader::new(0, 0, 5).write_to(&mut buf);
    buf.push(TypeTag::U8.to_u8());
    assert_eq!(decode_record(&buf, &no_custom).err(), Some(DecodeError::BufferTooShort));
}

struct Color {
    r: u8,
    g: u8,
    b: u8,
}

impl CustomEncode for Color {
    fn payload_size(&self) -> usize {
        3
    }

    fn encode_payload(&self) -> Vec<u8> {
        vec![self.r, self.g, self.b]
    }

    fn decoder_id() -> u64 {
        1
    }
}

struct Marker;

impl CustomEncode for Marker {
    fn payload_size(&self) -> usize {
        0
    }

    fn encode_payload(&self) -> Vec<u8> {
        Vec::new()
    }

    fn decoder_id() -> u64 {
        3
    }
}

fn type_resolver(decoder: u64, payload: &[u8]) -> Option<String> {
    match decoder {
        3 => Some("marker".to_owned()),
        _ => color_resolver(decoder, payload),
    }
}

#[test]
fn decode_custom_color_roundtrip() {
    let val = Color { r: 255, g: 128, b: 0 };
    let mut buf = Vec::new();
    assert!(encode_custom_value(&val, &mut buf));
    let (arg, consumed) = decode_one(&buf, &type_resolver).unwrap();
    assert_eq!(consumed, buf.len());
    assert_eq!(arg, DecodedArg::Custom("rgb(255, 128, 0)".to_owned()));
}

#[test]
fn decode_custom_marker_roundtrip() {
    let mut buf = Vec::new();
    assert!(encode_custom_value(&Marker, &mut buf));
    let (arg, consumed) = decode_one(&buf, &type_resolver).unwrap();
    assert_eq!(consumed, buf.len());
    assert_eq!(arg, DecodedArg::Custom("marker".to_owned()));
}

#[test]
fn custom_color_size_and_tag() {
    let val = Color { r: 1, g: 2, b: 3 };
    let mut buf = Vec::new();
    assert!(encode_custom_value(&val, &mut buf));
    assert_eq!(custom_value_size(&val), Some(buf.len()));
    assert_eq!(buf.len(), 1 + 8 + 4 + 3);
    assert_eq!(buf[0], TypeTag::Custom.to_u8());
}

#[test]
fn custom_color_payload_bytes() {
    let val = Color { r: 9, g: 8, b: 7 };
    let mut buf = Vec::new();
    assert!(encode_custom_value(&val, &mut buf));
    assert_eq!(&buf[1..9], &1u64.to_le_bytes());
    assert_eq!(&buf[9..13], &3u32.to_le_bytes());
    assert_eq!(&buf[13..], &[9, 8, 7]);
}

#[test]
fn custom_zero_payload_size() {
    assert_eq!(custom_value_size(&Marker), Some(13));
    assert_eq!(Marker.payload_size(), 0);
}

#[test]
fn decode_one_truncated_custom_returns_err() {
    // Tag only: the decoder token is incomplete.
    assert!(decode_one(&[TypeTag::Custom.to_u8()], &color_resolver).is_err());

    // Tag and token, but no length prefix.
    let partial = vec![TypeTag::Custom.to_u8(); 1 + 8];
    assert!(decode_one(&partial, &color_resolver).is_err());

    // Tag, token and a length prefix claiming 4 payload bytes, none given.
    let mut buf = vec![0u8; 1 + 8 + 4];
    buf[0] = TypeTag::Custom.to_u8();
    let len: u32 = 4;
    buf[1 + 8..].copy_from_slice(&len.to_le_bytes());
    assert!(decode_one(&buf, &color_resolver).is_err());
}

#[test]
fn decode_custom_consumed_bytes() {
    // One tag byte, eight token bytes, four length bytes, then the payload.
    let val = Color { r: 0, g: 0, b: 0 };
    let mut buf = Vec::new();
    assert!(encode_custom_value(&val, &mut buf));
    let (_, consumed) = decode_one(&buf, &type_resolver).unwrap();
    assert_eq!(consumed, 1 + 8 + 4 + val.payload_size());
}

struct Point2D {
    x: f32,
    y: f32,
}

impl CustomEncode for Point2D {
    fn payload_size(&self) -> usize {
        8
    }

    fn encode_payload(&self) -> Vec<u8> {
        let mut out = self.x.to_le_bytes().to_vec();
        out.extend_from_slice(&self.y.to_le_bytes());
        out
    }

    fn decoder_id() -> u64 {
        4
    }
}

fn point_resolver(decoder: u64, bytes: &[u8]) -> Option<String> {
    match decoder {
        4 => {
            let x = f32::from_le_bytes(bytes[..4].try_into().ok()?);
            let y = f32::from_le_bytes(bytes[4..].try_into().ok()?);
            Some(format!("({x}, {y})"))
        }
        _ => None,
    }
}

#[test]
fn decode_custom_point2d_roundtrip() {
    let val = Point2D { x: 1.5, y: -3.25 };
    let mut buf = Vec::new();
    assert!(encode_custom_value(&val, &mut buf));
    let (arg, consumed) = decode_one(&buf, &point_resolver).unwrap();
    assert_eq!(consumed, buf.len());
    let DecodedArg::Custom(ref s) = arg else {
        panic!("expected Custom")
    };
    assert!(s.contains("1.5"), "expected x=1.5 in output, got: {s:?}");
    assert!(s.contains("-3.25"), "expected y=-3.25 in output, got: {s:?}");
}

#[test]
fn decode_record_returns_the_first_error_in_order() {
    // A user-defined argument nobody resolves, then an unknown tag.
    let mut args = Vec::new();
    encode_custom(&mut args, 99, &[1]);
    args.push(17);
    let mut buf = Vec::new();
    RecordHeader::new(1, 0, args.len() as u32).write_to(&mut buf);
    buf.extend_from_slice(&args);
    assert_eq!(decode_record(&buf, &color_resolver).err(), Some(DecodeError::DecoderFailed));

    // The same unknown tag first, then the unresolvable argument.
    let mut args = vec![17];
    encode_custom(&mut args, 99, &[1]);
    let mut buf = Vec::new();
    RecordHeader::new(1, 0, args.len() as u32).write_to(&mut buf);
    buf.extend_from_slice(&args);
    assert_eq!(decode_record(&buf, &color_resolver).err(), Some(DecodeError::UnknownTag(17)));
}
