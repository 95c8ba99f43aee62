use insomnilog::decode::DecodedArg;
use insomnilog::encode::F64Bits;
use insomnilog::legacy::{_record_header_size, decode_one, decode_record, Encode, RecordHeader, TypeTag};

fn tagged<T: Encode>(tag: TypeTag, val: T) -> Vec<u8> {
    let mut buf = vec![tag.to_u8()];
    val.encode_to(&mut buf);
    buf
}

#[test]
fn encode_i32_roundtrip() {
    let val: i32 = -42;
    let mut buf = Vec::new();
    let n = val.encode_to(&mut buf);
    assert_eq!(n, 4);
    assert_eq!(i32::from_le_bytes(buf[..].try_into().unwrap()), -42);
}

#[test]
fn encode_str_roundtrip() {
    let val: &str = "hello";
    let mut buf = Vec::new();
    let n = val.encode_to(&mut buf);
    assert_eq!(n, 4 + 5);
    let len = u32::from_le_bytes(buf[..4].try_into().unwrap()) as usize;
    assert_eq!(len, 5);
    assert_eq!(&buf[4..4 + len], b"hello");
}

#[test]
fn encode_bool() {
    let mut buf = Vec::new();
    let n = true.encode_to(&mut buf);
    assert_eq!(n, 1);
    assert_eq!(buf[0], 1);
}

#[test]
fn decode_i32_roundtrip() {
    let buf = tagged(TypeTag::I32, -999i32);
    assert_eq!(buf.len(), 5);
    let (arg, consumed) = decode_one(&buf).unwrap();
    assert_eq!(consumed, 5);
    assert_eq!(arg, DecodedArg::I32(-999));
}

#[test]
fn decode_str_roundtrip() {
    let val: &str = "world";
    let size = 1 + val.encoded_size();
    let buf = tagged(TypeTag::Str, val);
    assert_eq!(buf.len(), size);
    let (arg, consumed) = decode_one(&buf).unwrap();
    assert_eq!(consumed, size);
    assert_eq!(arg, DecodedArg::Str("world".to_owned()));
}

#[test]
fn decode_bool_roundtrip() {
    let buf = tagged(TypeTag::Bool, true);
    let (arg, _) = decode_one(&buf).unwrap();
    assert_eq!(arg, DecodedArg::Bool(true));
}

#[test]
fn decode_all_int_types() {
    let buf = tagged(TypeTag::U64, 123_456_789u64);
    let (arg, _) = decode_one(&buf).unwrap();
    assert_eq!(arg, DecodedArg::U64(123_456_789));

    let val: f64 = 2.72;
    let buf = tagged(TypeTag::F64, F64Bits(val.to_bits()));
    let (arg, _) = decode_one(&buf).unwrap();
    assert_eq!(arg, DecodedArg::F64(2.72f64.to_bits()));
}

#[test]
fn legacy_tags_stop_at_isize() {
    assert_eq!(TypeTag::try_from(15), Ok(TypeTag::Isize));
    assert!(TypeTag::try_from(16).is_err());
    assert!(decode_one(&[16, 0, 0, 0, 0, 0, 0, 0, 0, 0, 0, 0, 0]).is_none());
    assert_eq!(true.tag(), TypeTag::Bool.to_u8());
}

#[test]
fn legacy_record_decodes_plain_arguments() {
    let mut buf = Vec::new();
    let mut args = tagged(TypeTag::U8, 7u8);
    args.extend(tagged(TypeTag::Bool, false));
    RecordHeader::new(3, 0x80, args.len() as u32).write_to(&mut buf);
    buf.extend(&args);
    let rec = decode_record(&buf).unwrap();
    assert_eq!(rec.timestamp_ns, 3);
    assert_eq!(rec.args, vec![DecodedArg::U8(7), DecodedArg::Bool(false)]);
    assert_eq!(_record_header_size(), 24);
}
