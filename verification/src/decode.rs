//! Decoding of binary-encoded log arguments and records.
//!
//! Decoding is exact: [`spec_decode_one`] states, byte by byte, what an
//! argument decodes to, and [`lemma_decode_encoded`] shows that decoding an
//! encoded value gives the value back. A user-defined argument is handed to a
//! caller-supplied resolver, which turns its decoder token and payload into
//! text.

use crate::bytes::{
    fits_signed, le_bytes, le_value, lemma_le_bytes_len, lemma_le_roundtrip,
    lemma_le_value_bound, lemma_radix_values, lemma_twos_roundtrip, radix, read_le, from_twos,
    twos, untwos,
};
use crate::encode::{
    custom_wire, encodable, payload_of, str_payload, tag_of, wire_of, ArgModel, TypeTag,
};
use crate::metadata::LogMetadata;
use crate::record::{spec_read_header, RecordHeader};
use crate::text::{
    dec, dec_int, is_decimal_of, lemma_dec_int_is_decimal, lemma_dec_is_decimal, push_decimal, push_signed_decimal,
    push_str,
};
use vstd::prelude::*;
use vstd::slice::slice_subrange;
use vstd::utf8::{decode_utf8, encode_utf8, encode_utf8_decode_utf8, encode_utf8_valid_utf8, valid_utf8};

verus! {

/// Error returned when decoding a binary log record fails.
#[derive(Debug, Clone, Copy, PartialEq, Eq, Structural)]
pub enum DecodeError {
    /// The byte slice was too short to contain a complete field.
    BufferTooShort,
    /// The type-tag byte did not match any known [`TypeTag`].
    UnknownTag(u8),
    /// The string payload was not valid UTF-8.
    InvalidUtf8,
    /// The resolver of a user-defined argument reported a failure.
    DecoderFailed,
}

/// A single decoded argument.
///
/// Floating-point values are carried by their IEEE-754 bit patterns; a
/// user-defined value by the text its decoder produced.
#[derive(Debug, Clone, PartialEq)]
pub enum DecodedArg {
    /// Decoded `i8`.
    I8(i8),
    /// Decoded `i16`.
    I16(i16),
    /// Decoded `i32`.
    I32(i32),
    /// Decoded `i64`.
    I64(i64),
    /// Decoded `i128`.
    I128(i128),
    /// Decoded `u8`.
    U8(u8),
    /// Decoded `u16`.
    U16(u16),
    /// Decoded `u32`.
    U32(u32),
    /// Decoded `u64`.
    U64(u64),
    /// Decoded `u128`.
    U128(u128),
    /// Decoded `f32`, as its bit pattern.
    F32(u32),
    /// Decoded `f64`, as its bit pattern.
    F64(u64),
    /// Decoded `bool`.
    Bool(bool),
    /// Decoded string (owned copy of the original `&str`).
    Str(String),
    /// Decoded `usize` (stored as `u64`).
    Usize(u64),
    /// Decoded `isize` (stored as `i64`).
    Isize(i64),
    /// Decoded user-defined value: the text its decoder produced.
    Custom(String),
}

impl View for DecodedArg {
    type V = ArgModel;

    open spec fn view(&self) -> ArgModel {
        match self {
            DecodedArg::I8(v) => ArgModel::I8(*v),
            DecodedArg::I16(v) => ArgModel::I16(*v),
            DecodedArg::I32(v) => ArgModel::I32(*v),
            DecodedArg::I64(v) => ArgModel::I64(*v),
            DecodedArg::I128(v) => ArgModel::I128(*v),
            DecodedArg::U8(v) => ArgModel::U8(*v),
            DecodedArg::U16(v) => ArgModel::U16(*v),
            DecodedArg::U32(v) => ArgModel::U32(*v),
            DecodedArg::U64(v) => ArgModel::U64(*v),
            DecodedArg::U128(v) => ArgModel::U128(*v),
            DecodedArg::F32(v) => ArgModel::F32(*v),
            DecodedArg::F64(v) => ArgModel::F64(*v),
            DecodedArg::Bool(v) => ArgModel::Bool(*v),
            DecodedArg::Str(s) => ArgModel::Str(s@),
            DecodedArg::Usize(v) => ArgModel::Usize(*v),
            DecodedArg::Isize(v) => ArgModel::Isize(*v),
            DecodedArg::Custom(s) => ArgModel::Custom(s@),
        }
    }
}

/// One argument as it stands in the byte stream: either a plain value, or a
/// user-defined value given by its decoder token and payload.
pub enum Frame {
    Plain(ArgModel),
    Custom(u64, Seq<u8>),
}

/// The value of a fixed-width argument whose value bytes read as `u`.
pub open spec fn fixed_model(tag: TypeTag, u: nat) -> ArgModel {
    match tag {
        TypeTag::I8 => ArgModel::I8(untwos(u, 1) as i8),
        TypeTag::I16 => ArgModel::I16(untwos(u, 2) as i16),
        TypeTag::I32 => ArgModel::I32(untwos(u, 4) as i32),
        TypeTag::I64 => ArgModel::I64(untwos(u, 8) as i64),
        TypeTag::I128 => ArgModel::I128(untwos(u, 16) as i128),
        TypeTag::U8 => ArgModel::U8(u as u8),
        TypeTag::U16 => ArgModel::U16(u as u16),
        TypeTag::U32 => ArgModel::U32(u as u32),
        TypeTag::U64 => ArgModel::U64(u as u64),
        TypeTag::U128 => ArgModel::U128(u as u128),
        TypeTag::F32 => ArgModel::F32(u as u32),
        TypeTag::F64 => ArgModel::F64(u as u64),
        TypeTag::Bool => ArgModel::Bool(u != 0),
        TypeTag::Usize => ArgModel::Usize(u as u64),
        TypeTag::Isize => ArgModel::Isize(untwos(u, 8) as i64),
        _ => ArgModel::Bool(false),
    }
}

/// What the string argument at the start of `s` decodes to.
pub open spec fn spec_decode_str(s: Seq<u8>) -> Result<(Frame, nat), DecodeError> {
    if s.len() < 5 {
        Err(DecodeError::BufferTooShort)
    } else {
        let len = le_value(s.subrange(1, 5));
        if s.len() < 5 + len {
            Err(DecodeError::BufferTooShort)
        } else {
            let b = s.subrange(5, 5 + len as int);
            if valid_utf8(b) {
                Ok((Frame::Plain(ArgModel::Str(decode_utf8(b))), 5 + len))
            } else {
                Err(DecodeError::InvalidUtf8)
            }
        }
    }
}

/// What the user-defined argument at the start of `s` decodes to.
pub open spec fn spec_decode_custom(s: Seq<u8>) -> Result<(Frame, nat), DecodeError> {
    if s.len() < 13 {
        Err(DecodeError::BufferTooShort)
    } else {
        let len = le_value(s.subrange(9, 13));
        if s.len() < 13 + len {
            Err(DecodeError::BufferTooShort)
        } else {
            Ok((Frame::Custom(le_value(s.subrange(1, 9)) as u64, s.subrange(13, 13 + len as int)), 13 + len))
        }
    }
}

/// What the argument at the start of `s` decodes to, and how many bytes it
/// takes, tag included.
pub open spec fn spec_decode_one(s: Seq<u8>) -> Result<(Frame, nat), DecodeError> {
    if s.len() == 0 {
        Err(DecodeError::BufferTooShort)
    } else {
        match TypeTag::spec_from_byte(s[0]) {
            None => Err(DecodeError::UnknownTag(s[0])),
            Some(tag) => match tag.spec_fixed_width() {
                Some(w) => if s.len() < 1 + w {
                    Err(DecodeError::BufferTooShort)
                } else {
                    Ok((Frame::Plain(fixed_model(tag, le_value(s.subrange(1, 1 + w as int)))), 1 + w))
                },
                None => if tag == TypeTag::Str {
                    spec_decode_str(s)
                } else {
                    spec_decode_custom(s)
                },
            },
        }
    }
}

/// Whether the decoded argument `a` is what the frame `f` stands for, given
/// the resolver of user-defined values.
pub open spec fn arg_matches<F: Fn(u64, &[u8]) -> Option<String>>(
    a: DecodedArg,
    f: Frame,
    resolve: F,
) -> bool {
    match f {
        Frame::Plain(m) => a@ == m,
        Frame::Custom(d, p) => a is Custom && resolves_to(resolve, d, p, Some(a->Custom_0)),
    }
}

/// Whether the resolver may turn decoder token `d` and payload `p` into `text`.
pub open spec fn resolves_to<F: Fn(u64, &[u8]) -> Option<String>>(
    resolve: F,
    d: u64,
    p: Seq<u8>,
    text: Option<String>,
) -> bool {
    exists|ps: &[u8]| ps@ == p && #[trigger] resolve.ensures((d, ps), text)
}

/// Whether the resolver reports a failure for the frame `f`.
pub open spec fn resolve_fails<F: Fn(u64, &[u8]) -> Option<String>>(f: Frame, resolve: F) -> bool {
    match f {
        Frame::Custom(d, p) => resolves_to(resolve, d, p, None),
        _ => false,
    }
}

/// Whether the resolver may turn the frame `f` into text; true of every
/// plain frame.
pub open spec fn resolve_succeeds<F: Fn(u64, &[u8]) -> Option<String>>(f: Frame, resolve: F) -> bool {
    match f {
        Frame::Custom(d, p) => exists|t: String| #[trigger] resolves_to(resolve, d, p, Some(t)),
        _ => true,
    }
}

/// Whether the resolver accepts every payload.
pub open spec fn resolver_total<F: Fn(u64, &[u8]) -> Option<String>>(resolve: F) -> bool {
    forall|d: u64, p: &[u8]| #[trigger] resolve.requires((d, p))
}

/// The byte width of a fixed-width tag.
fn fixed_width(tag: TypeTag) -> (w: usize)
    requires
        tag.spec_fixed_width() is Some,
    ensures
        tag.spec_fixed_width() == Some(w as nat),
{
    match tag {
        TypeTag::I8 | TypeTag::U8 | TypeTag::Bool => 1,
        TypeTag::I16 | TypeTag::U16 => 2,
        TypeTag::I32 | TypeTag::U32 | TypeTag::F32 => 4,
        TypeTag::I128 | TypeTag::U128 => 16,
        _ => 8,
    }
}

/// Builds the argument of a fixed-width tag from its value bytes `u`.
fn make_fixed(tag: TypeTag, u: u128) -> (a: DecodedArg)
    requires
        tag.spec_fixed_width() matches Some(w) && (u as nat) < radix(w),
    ensures
        a@ == fixed_model(tag, u as nat),
{
    proof {
        lemma_radix_values();
    }
    match tag {
        TypeTag::I8 => DecodedArg::I8(from_twos(u, 1) as i8),
        TypeTag::I16 => DecodedArg::I16(from_twos(u, 2) as i16),
        TypeTag::I32 => DecodedArg::I32(from_twos(u, 4) as i32),
        TypeTag::I64 => DecodedArg::I64(from_twos(u, 8) as i64),
        TypeTag::I128 => DecodedArg::I128(from_twos(u, 16)),
        TypeTag::U8 => DecodedArg::U8(u as u8),
        TypeTag::U16 => DecodedArg::U16(u as u16),
        TypeTag::U32 => DecodedArg::U32(u as u32),
        TypeTag::U64 => DecodedArg::U64(u as u64),
        TypeTag::U128 => DecodedArg::U128(u),
        TypeTag::F32 => DecodedArg::F32(u as u32),
        TypeTag::F64 => DecodedArg::F64(u as u64),
        TypeTag::Bool => DecodedArg::Bool(u != 0),
        TypeTag::Usize => DecodedArg::Usize(u as u64),
        _ => DecodedArg::Isize(from_twos(u, 8) as i64),
    }
}

/// Checks that `bytes` are UTF-8 and returns them as text.
///
/// Calls `core::str::from_utf8`. Trusted: it succeeds exactly when the bytes
/// are valid UTF-8 in the sense of `vstd::utf8::valid_utf8` (no overlong
/// forms, no surrogates, nothing above U+10FFFF), and then hands back the same
/// bytes as a `&str`.
#[verifier::external_body]
fn utf8_text(bytes: &[u8]) -> (r: Option<&str>)
    ensures
        r is Some <==> valid_utf8(bytes@),
        r matches Some(s) ==> encode_utf8(s@) == bytes@,
{
    match core::str::from_utf8(bytes) {
        Ok(s) => Some(s),
        Err(_) => None,
    }
}

/// Decodes one argument from the start of `data`, returning it and the
/// number of bytes consumed (tag included).
///
/// A user-defined argument is handed to `resolve` with its decoder token and
/// payload; `None` from the resolver becomes [`DecodeError::DecoderFailed`].
pub fn decode_one<F: Fn(u64, &[u8]) -> Option<String>>(data: &[u8], resolve: &F) -> (r: Result<
    (DecodedArg, usize),
    DecodeError,
>)
    requires
        resolver_total(*resolve),
    ensures
        match spec_decode_one(data@) {
            Err(e) => r == Err::<(DecodedArg, usize), DecodeError>(e),
            Ok((f, n)) => match r {
                Ok((a, k)) => k == n && arg_matches(a, f, *resolve),
                Err(e) => e == DecodeError::DecoderFailed && resolve_fails(f, *resolve),
            },
        },
{
    if data.len() == 0 {
        return Err(DecodeError::BufferTooShort);
    }
    let tag_byte = data[0];
    let tag = match TypeTag::try_from_u8(tag_byte) {
        Ok(t) => t,
        Err(()) => {
            return Err(DecodeError::UnknownTag(tag_byte));
        },
    };
    match tag {
        TypeTag::Str => decode_str(data),
        TypeTag::Custom => decode_custom(data, resolve),
        _ => {
            let w = fixed_width(tag);
            if data.len() < 1 + w {
                return Err(DecodeError::BufferTooShort);
            }
            proof {
                lemma_le_value_bound(data@.subrange(1, 1 + w as int));
            }
            let u = read_le(data, 1, w);
            Ok((make_fixed(tag, u), 1 + w))
        },
    }
}

/// Decodes a length-prefixed string argument starting at the tag byte.
fn decode_str(data: &[u8]) -> (r: Result<(DecodedArg, usize), DecodeError>)
    requires
        data@.len() >= 1,
    ensures
        match spec_decode_str(data@) {
            Err(e) => r == Err::<(DecodedArg, usize), DecodeError>(e),
            Ok((f, n)) => r matches Ok((a, k)) && k == n && f == Frame::Plain(a@),
        },
{
    if data.len() < 5 {
        return Err(DecodeError::BufferTooShort);
    }
    proof {
        lemma_radix_values();
        lemma_le_value_bound(data@.subrange(1, 5));
    }
    let len = read_le(data, 1, 4) as usize;
    if data.len() - 5 < len {
        return Err(DecodeError::BufferTooShort);
    }
    let bytes = slice_subrange(data, 5, 5 + len);
    match utf8_text(bytes) {
        Some(s) => {
            proof {
                encode_utf8_decode_utf8(s@);
            }
            Ok((DecodedArg::Str(s.to_owned()), 5 + len))
        },
        None => Err(DecodeError::InvalidUtf8),
    }
}

/// Decodes a user-defined argument starting at the tag byte.
fn decode_custom<F: Fn(u64, &[u8]) -> Option<String>>(data: &[u8], resolve: &F) -> (r: Result<
    (DecodedArg, usize),
    DecodeError,
>)
    requires
        data@.len() >= 1,
        resolver_total(*resolve),
    ensures
        match spec_decode_custom(data@) {
            Err(e) => r == Err::<(DecodedArg, usize), DecodeError>(e),
            Ok((f, n)) => match r {
                Ok((a, k)) => k == n && arg_matches(a, f, *resolve),
                Err(e) => e == DecodeError::DecoderFailed && resolve_fails(f, *resolve),
            },
        },
{
    if data.len() < 13 {
        return Err(DecodeError::BufferTooShort);
    }
    proof {
        lemma_radix_values();
        lemma_le_value_bound(data@.subrange(1, 9));
        lemma_le_value_bound(data@.subrange(9, 13));
    }
    let decoder = read_le(data, 1, 8) as u64;
    let len = read_le(data, 9, 4) as usize;
    if data.len() - 13 < len {
        return Err(DecodeError::BufferTooShort);
    }
    let payload = slice_subrange(data, 13, 13 + len);
    assert(resolve.requires((decoder, payload)));
    let outcome = resolve(decoder, payload);
    assert(decoder as nat == le_value(data@.subrange(1, 9)));
    assert(payload@ == data@.subrange(13, 13 + len as int));
    match outcome {
        Some(text) => {
            assert((*resolve).ensures((decoder, payload), Some(text)));
            Ok((DecodedArg::Custom(text), 13 + len))
        },
        None => {
            assert((*resolve).ensures((decoder, payload), None::<String>));
            Err(DecodeError::DecoderFailed)
        },
    }
}

/// Every argument that decodes takes at least two bytes and no more than
/// there are.
pub proof fn lemma_decode_one_len(s: Seq<u8>)
    ensures
        spec_decode_one(s) matches Ok((_, n)) ==> 2 <= n <= s.len(),
{
}

/// The frames found one after another in `s`, and the error that stopped
/// the scan, if any.
pub open spec fn spec_decode_args(s: Seq<u8>) -> (Seq<Frame>, Option<DecodeError>)
    decreases s.len(),
{
    if s.len() == 0 {
        (Seq::empty(), None)
    } else {
        match spec_decode_one(s) {
            Err(e) => (Seq::empty(), Some(e)),
            Ok((f, n)) => if 0 < n <= s.len() {
                let (fs, e) = spec_decode_args(s.subrange(n as int, s.len() as int));
                (seq![f] + fs, e)
            } else {
                (Seq::empty(), None)
            },
        }
    }
}

/// What the record at the start of `s` decodes to: its header, the frames
/// of its arguments, and the error that stopped the scan of the arguments,
/// if any.
pub open spec fn spec_decode_record(s: Seq<u8>) -> Result<
    (RecordHeader, Seq<Frame>, Option<DecodeError>),
    DecodeError,
> {
    match spec_read_header(s) {
        None => Err(DecodeError::BufferTooShort),
        Some(h) => if s.len() < 24 + h.encoded_args_size {
            Err(DecodeError::BufferTooShort)
        } else {
            let (fs, e) = spec_decode_args(s.subrange(24, 24 + h.encoded_args_size));
            Ok((h, fs, e))
        },
    }
}

/// Whether `r` is what decoding a record with header `h`, argument frames
/// `fs` and scan error `stop` may give. Arguments are taken in order, so
/// an error is the first one met: a resolver failure comes after every
/// earlier frame resolved, and a scan error after every frame resolved.
pub open spec fn record_outcome<F: Fn(u64, &[u8]) -> Option<String>>(
    r: Result<RawDecodedRecord, DecodeError>,
    h: RecordHeader,
    fs: Seq<Frame>,
    stop: Option<DecodeError>,
    resolve: F,
) -> bool {
    match r {
        Ok(rec) => {
            &&& stop is None
            &&& rec.timestamp_ns == h.timestamp_ns
            &&& rec.metadata_ptr == h.metadata_ptr
            &&& rec.args@.len() == fs.len()
            &&& forall|i: int|
                0 <= i < fs.len() ==> arg_matches(#[trigger] rec.args@[i], fs[i], resolve)
        },
        Err(e) => if e == DecodeError::DecoderFailed {
            exists|i: int|
                0 <= i < fs.len() && resolve_fails(#[trigger] fs[i], resolve) && forall|j: int|
                    0 <= j < i ==> resolve_succeeds(#[trigger] fs[j], resolve)
        } else {
            &&& stop == Some(e)
            &&& forall|j: int| 0 <= j < fs.len() ==> resolve_succeeds(#[trigger] fs[j], resolve)
        },
    }
}

/// A decoded record whose callsite metadata is still an address.
pub struct RawDecodedRecord {
    /// Timestamp in nanoseconds since the UNIX epoch.
    pub timestamp_ns: u64,
    /// Address of the static callsite metadata.
    pub metadata_ptr: usize,
    /// The decoded argument values, in order.
    pub args: Vec<DecodedArg>,
}

/// A fully decoded log record, as handed to sinks.
pub struct LogRecord {
    /// Timestamp in nanoseconds since the UNIX epoch.
    pub timestamp_ns: u64,
    /// Name of the logger that emitted the record.
    pub logger_name: String,
    /// The static metadata of the callsite.
    pub metadata: &'static LogMetadata,
    /// The decoded argument values, in order.
    pub args: Vec<DecodedArg>,
}

/// The text of an argument, or `None` for a floating-point value, whose
/// text this library does not produce.
pub open spec fn spec_render_arg(m: ArgModel) -> Option<Seq<char>> {
    match m {
        ArgModel::I8(v) => Some(dec_int(v as int)),
        ArgModel::I16(v) => Some(dec_int(v as int)),
        ArgModel::I32(v) => Some(dec_int(v as int)),
        ArgModel::I64(v) => Some(dec_int(v as int)),
        ArgModel::I128(v) => Some(dec_int(v as int)),
        ArgModel::U8(v) => Some(dec(v as nat)),
        ArgModel::U16(v) => Some(dec(v as nat)),
        ArgModel::U32(v) => Some(dec(v as nat)),
        ArgModel::U64(v) => Some(dec(v as nat)),
        ArgModel::U128(v) => Some(dec(v as nat)),
        ArgModel::F32(_) => None,
        ArgModel::F64(_) => None,
        ArgModel::Bool(b) => Some(
            if b {
                seq!['t', 'r', 'u', 'e']
            } else {
                seq!['f', 'a', 'l', 's', 'e']
            },
        ),
        ArgModel::Str(s) => Some(s),
        ArgModel::Usize(v) => Some(dec(v as nat)),
        ArgModel::Isize(v) => Some(dec_int(v as int)),
        ArgModel::Custom(s) => Some(s),
    }
}

/// The integer an argument holds, for the integer kinds.
pub open spec fn integer_value(m: ArgModel) -> Option<int> {
    match m {
        ArgModel::I8(v) => Some(v as int),
        ArgModel::I16(v) => Some(v as int),
        ArgModel::I32(v) => Some(v as int),
        ArgModel::I64(v) => Some(v as int),
        ArgModel::I128(v) => Some(v as int),
        ArgModel::U8(v) => Some(v as int),
        ArgModel::U16(v) => Some(v as int),
        ArgModel::U32(v) => Some(v as int),
        ArgModel::U64(v) => Some(v as int),
        ArgModel::U128(v) => Some(v as int),
        ArgModel::Usize(v) => Some(v as int),
        ArgModel::Isize(v) => Some(v as int),
        _ => None,
    }
}

/// Every integer argument renders as the decimal numeral of its value: a
/// `-` exactly when it is negative, then the digits of its magnitude, with
/// no leading zero.
pub proof fn lemma_integers_render_in_decimal(m: ArgModel)
    ensures
        integer_value(m) matches Some(v) ==> spec_render_arg(m) matches Some(t) && is_decimal_of(t, v),
{
    match integer_value(m) {
        Some(v) => {
            lemma_dec_int_is_decimal(v);
            if v >= 0 {
                lemma_dec_is_decimal(v as nat);
            }
        },
        None => {},
    }
}

impl DecodedArg {
    /// Returns the text of this argument: integers in decimal, booleans as
    /// `true`/`false`, strings and user-defined values as they are. A
    /// floating-point value gives `None`.
    pub fn render(&self) -> (r: Option<String>)
        ensures
            match spec_render_arg(self@) {
                Some(t) => r matches Some(s) && s@ == t,
                None => r is None,
            },
            integer_value(self@) matches Some(v) ==> r matches Some(s) && is_decimal_of(s@, v),
    {
        proof {
            lemma_integers_render_in_decimal(self@);
        }
        let mut s = String::new();
        match self {
            DecodedArg::I8(v) => push_signed_decimal(&mut s, *v as i128),
            DecodedArg::I16(v) => push_signed_decimal(&mut s, *v as i128),
            DecodedArg::I32(v) => push_signed_decimal(&mut s, *v as i128),
            DecodedArg::I64(v) => push_signed_decimal(&mut s, *v as i128),
            DecodedArg::I128(v) => push_signed_decimal(&mut s, *v),
            DecodedArg::U8(v) => push_decimal(&mut s, *v as u128),
            DecodedArg::U16(v) => push_decimal(&mut s, *v as u128),
            DecodedArg::U32(v) => push_decimal(&mut s, *v as u128),
            DecodedArg::U64(v) => push_decimal(&mut s, *v as u128),
            DecodedArg::U128(v) => push_decimal(&mut s, *v),
            DecodedArg::F32(_) | DecodedArg::F64(_) => {
                return None;
            },
            DecodedArg::Bool(b) => {
                if *b {
                    proof {
                        reveal_strlit("true");
                    }
                    push_str(&mut s, "true");
                } else {
                    proof {
                        reveal_strlit("false");
                    }
                    push_str(&mut s, "false");
                }
            },
            DecodedArg::Str(t) => push_str(&mut s, t.as_str()),
            DecodedArg::Usize(v) => push_decimal(&mut s, *v as u128),
            DecodedArg::Isize(v) => push_signed_decimal(&mut s, *v as i128),
            DecodedArg::Custom(t) => push_str(&mut s, t.as_str()),
        }
        assert(s@ =~= spec_render_arg(self@)->Some_0);
        Some(s)
    }
}

/// Renders every argument: through [`DecodedArg::render`], or through
/// `float_text` for a floating-point value.
pub fn render_args<F: Fn(&DecodedArg) -> String>(args: &Vec<DecodedArg>, float_text: &F) -> (r: Vec<
    String,
>)
    requires
        forall|a: &DecodedArg| #[trigger] float_text.requires((a,)),
    ensures
        r@.len() == args@.len(),
        forall|i: int|
            0 <= i < args@.len() ==> match spec_render_arg(#[trigger] args@[i]@) {
                Some(t) => r@[i]@ == t,
                None => float_text.ensures((&args@[i],), r@[i]),
            },
{
    let mut out: Vec<String> = Vec::new();
    let n = args.len();
    let mut i: usize = 0;
    while i < n
        invariant
            i <= n,
            n == args@.len(),
            out@.len() == i,
            forall|a: &DecodedArg| #[trigger] float_text.requires((a,)),
            forall|k: int|
                0 <= k < i ==> match spec_render_arg(#[trigger] args@[k]@) {
                    Some(t) => out@[k]@ == t,
                    None => float_text.ensures((&args@[k],), out@[k]),
                },
        decreases n - i,
    {
        let a = &args[i];
        let text = match a.render() {
            Some(t) => t,
            None => float_text(a),
        };
        out.push(text);
        i = i + 1;
    }
    out
}

/// Decodes a complete record (header and arguments) from the start of
/// `data`.
///
/// Arguments are decoded in order; the first malformed argument, or the
/// first user-defined argument whose resolver fails, ends the decoding with
/// its error.
pub fn decode_record<F: Fn(u64, &[u8]) -> Option<String>>(data: &[u8], resolve: &F) -> (r: Result<
    RawDecodedRecord,
    DecodeError,
>)
    requires
        resolver_total(*resolve),
    ensures
        match spec_decode_record(data@) {
            Err(e) => r matches Err(e2) && e2 == e,
            Ok((h, fs, stop)) => record_outcome(r, h, fs, stop, *resolve),
        },
{
    let header = match RecordHeader::read_from(data) {
        None => {
            return Err(DecodeError::BufferTooShort);
        },
        Some(h) => h,
    };
    let size = header.encoded_args_size as usize;
    if data.len() - 24 < size {
        return Err(DecodeError::BufferTooShort);
    }
    let region = slice_subrange(data, 24, 24 + size);
    let ghost whole = spec_decode_args(region@);
    let ghost mut done: Seq<Frame> = Seq::empty();
    let mut args: Vec<DecodedArg> = Vec::new();
    let mut offset: usize = 0;
    assert(region@.subrange(0, size as int) =~= region@);
    while offset < size
        invariant
            offset <= size,
            size == region@.len(),
            size == header.encoded_args_size,
            region@ == data@.subrange(24, 24 + size as int),
            spec_read_header(data@) == Some(header),
            data@.len() >= 24 + size,
            resolver_total(*resolve),
            whole == spec_decode_args(region@),
            args@.len() == done.len(),
            forall|i: int| 0 <= i < done.len() ==> arg_matches(#[trigger] args@[i], done[i], *resolve),
            forall|i: int| 0 <= i < done.len() ==> resolve_succeeds(#[trigger] done[i], *resolve),
            whole.0 == done + spec_decode_args(region@.subrange(offset as int, size as int)).0,
            whole.1 == spec_decode_args(region@.subrange(offset as int, size as int)).1,
        decreases size - offset,
    {
        let rest = slice_subrange(region, offset, size);
        proof {
            lemma_decode_one_len(rest@);
        }
        match decode_one(rest, resolve) {
            Ok((a, n)) => {
                let ghost f = spec_decode_one(rest@)->Ok_0.0;
                proof {
                    let tail = rest@.subrange(n as int, rest@.len() as int);
                    assert(tail =~= region@.subrange(offset + n, size as int));
                    assert(done + seq![f] + spec_decode_args(tail).0 =~= done + (seq![f]
                        + spec_decode_args(tail).0));
                    if let Frame::Custom(d, p) = f {
                        assert(resolves_to(*resolve, d, p, Some(a->Custom_0)));
                    }
                    assert(resolve_succeeds(f, *resolve));
                    done = done.push(f);
                }
                args.push(a);
                offset = offset + n;
            },
            Err(e) => {
                proof {
                    assert(rest@ =~= region@.subrange(offset as int, size as int));
                    assert(rest@.len() > 0);
                    let sub = spec_decode_args(rest@);
                    if spec_decode_one(rest@) is Ok {
                        let f = spec_decode_one(rest@)->Ok_0.0;
                        assert(sub.0[0] == f);
                        assert(sub.0.len() >= 1);
                        assert(whole.0.len() > done.len());
                        assert(whole.0[done.len() as int] == f);
                        assert(resolve_fails(whole.0[done.len() as int], *resolve));
                        assert(e == DecodeError::DecoderFailed);
                        assert forall|j: int| 0 <= j < done.len() implies resolve_succeeds(
                            #[trigger] whole.0[j],
                            *resolve,
                        ) by {
                            assert(whole.0[j] == done[j]);
                        }
                        let k = done.len() as int;
                        assert(0 <= k < whole.0.len() && resolve_fails(whole.0[k], *resolve)
                            && forall|j: int| 0 <= j < k ==> resolve_succeeds(#[trigger] whole.0[j], *resolve));
                    } else {
                        assert(sub.1 == Some(e));
                        assert(e != DecodeError::DecoderFailed);
                        assert(whole.0 =~= done);
                    }
                    assert(spec_decode_record(data@) == Ok::<
                        (RecordHeader, Seq<Frame>, Option<DecodeError>),
                        DecodeError,
                    >((header, whole.0, whole.1)));
                    assert(record_outcome(Err(e), header, whole.0, whole.1, *resolve));
                }
                return Err(e);
            },
        }
    }
    proof {
        assert(region@.subrange(size as int, size as int) =~= Seq::<u8>::empty());
        assert(whole.0 =~= done);
    }
    Ok(RawDecodedRecord { timestamp_ns: header.timestamp_ns, metadata_ptr: header.metadata_ptr, args })
}

/// Decoding an encoded value gives the value back, whatever follows it.
pub proof fn lemma_decode_encoded(m: ArgModel, rest: Seq<u8>)
    requires
        encodable(m),
    ensures
        spec_decode_one(wire_of(m) + rest) == Ok::<(Frame, nat), DecodeError>(
            (Frame::Plain(m), wire_of(m).len()),
        ),
{
    let s = wire_of(m) + rest;
    let tag = tag_of(m);
    assert(s[0] == tag.spec_byte());
    lemma_radix_values();
    match tag.spec_fixed_width() {
        Some(w) => {
            let p = payload_of(m);
            let v: nat = match m {
                ArgModel::I8(v) => twos(v as int, 1),
                ArgModel::I16(v) => twos(v as int, 2),
                ArgModel::I32(v) => twos(v as int, 4),
                ArgModel::I64(v) => twos(v as int, 8),
                ArgModel::I128(v) => twos(v as int, 16),
                ArgModel::U8(v) => v as nat,
                ArgModel::U16(v) => v as nat,
                ArgModel::U32(v) => v as nat,
                ArgModel::U64(v) => v as nat,
                ArgModel::U128(v) => v as nat,
                ArgModel::F32(v) => v as nat,
                ArgModel::F64(v) => v as nat,
                ArgModel::Bool(b) => if b {
                    1
                } else {
                    0
                },
                ArgModel::Usize(v) => v as nat,
                ArgModel::Isize(v) => twos(v as int, 8),
                _ => 0,
            };
            match m {
                ArgModel::I8(x) => lemma_twos_roundtrip(x as int, 1),
                ArgModel::I16(x) => lemma_twos_roundtrip(x as int, 2),
                ArgModel::I32(x) => lemma_twos_roundtrip(x as int, 4),
                ArgModel::I64(x) => lemma_twos_roundtrip(x as int, 8),
                ArgModel::I128(x) => lemma_twos_roundtrip(x as int, 16),
                ArgModel::Isize(x) => lemma_twos_roundtrip(x as int, 8),
                _ => {},
            }
            assert(v < radix(w));
            assert(p == le_bytes(v, w)) by {
                reveal_with_fuel(le_bytes, 2);
            }
            lemma_le_bytes_len(v, w);
            assert(s.subrange(1, 1 + w as int) =~= p);
            lemma_le_roundtrip(v, w);
            vstd::arithmetic::div_mod::lemma_small_mod(v, radix(w));
        },
        None => {
            if tag == TypeTag::Str {
                let cs = match m {
                    ArgModel::Str(cs) => cs,
                    _ => Seq::empty(),
                };
                let b = encode_utf8(cs);
                lemma_le_bytes_len(b.len(), 4);
                assert(payload_of(m) == str_payload(cs));
                assert(s.subrange(1, 5) =~= le_bytes(b.len(), 4));
                lemma_le_roundtrip(b.len(), 4);
                vstd::arithmetic::div_mod::lemma_small_mod(b.len(), radix(4));
                assert(s.subrange(5, 5 + b.len() as int) =~= b);
                encode_utf8_valid_utf8(cs);
                encode_utf8_decode_utf8(cs);
            }
        },
    }
}

/// Decoding an encoded user-defined value gives its decoder token and payload
/// back, whatever follows it.
pub proof fn lemma_decode_custom_encoded(decoder: u64, payload: Seq<u8>, rest: Seq<u8>)
    requires
        payload.len() <= u32::MAX,
    ensures
        spec_decode_one(custom_wire(decoder, payload) + rest) == Ok::<(Frame, nat), DecodeError>(
            (Frame::Custom(decoder, payload), custom_wire(decoder, payload).len()),
        ),
{
    let s = custom_wire(decoder, payload) + rest;
    lemma_radix_values();
    lemma_le_bytes_len(decoder as nat, 8);
    lemma_le_bytes_len(payload.len(), 4);
    assert(s[0] == 16);
    assert(s.subrange(1, 9) =~= le_bytes(decoder as nat, 8));
    assert(s.subrange(9, 13) =~= le_bytes(payload.len(), 4));
    assert(s.subrange(13, 13 + payload.len() as int) =~= payload);
    lemma_le_roundtrip(decoder as nat, 8);
    lemma_le_roundtrip(payload.len(), 4);
    vstd::arithmetic::div_mod::lemma_small_mod(decoder as nat, radix(8));
    vstd::arithmetic::div_mod::lemma_small_mod(payload.len(), radix(4));
}

/// The bytes of one frame.
pub open spec fn frame_wire(f: Frame) -> Seq<u8> {
    match f {
        Frame::Plain(m) => wire_of(m),
        Frame::Custom(d, p) => custom_wire(d, p),
    }
}

/// Whether a frame can be written.
pub open spec fn frame_encodable(f: Frame) -> bool {
    match f {
        Frame::Plain(m) => encodable(m),
        Frame::Custom(_, p) => p.len() <= u32::MAX,
    }
}

/// The bytes of a sequence of frames, one after another.
pub open spec fn frames_wire(fs: Seq<Frame>) -> Seq<u8>
    decreases fs.len(),
{
    if fs.len() == 0 {
        Seq::empty()
    } else {
        frame_wire(fs[0]) + frames_wire(fs.drop_first())
    }
}

/// Decoding a frame's bytes gives the frame back, whatever follows.
pub proof fn lemma_decode_frame(f: Frame, rest: Seq<u8>)
    requires
        frame_encodable(f),
    ensures
        spec_decode_one(frame_wire(f) + rest) == Ok::<(Frame, nat), DecodeError>(
            (f, frame_wire(f).len()),
        ),
{
    match f {
        Frame::Plain(m) => lemma_decode_encoded(m, rest),
        Frame::Custom(d, p) => lemma_decode_custom_encoded(d, p, rest),
    }
}

/// Scanning the bytes of a sequence of frames finds exactly those frames,
/// with no error.
pub proof fn lemma_decode_frames(fs: Seq<Frame>)
    requires
        forall|i: int| 0 <= i < fs.len() ==> frame_encodable(#[trigger] fs[i]),
    ensures
        spec_decode_args(frames_wire(fs)) == (fs, None::<DecodeError>),
    decreases fs.len(),
{
    if fs.len() == 0 {
        assert(fs =~= Seq::<Frame>::empty());
    } else {
        let rest = fs.drop_first();
        assert forall|i: int| 0 <= i < rest.len() implies frame_encodable(#[trigger] rest[i]) by {
            assert(rest[i] == fs[i + 1]);
        }
        lemma_decode_frames(rest);
        let head = frame_wire(fs[0]);
        let tail = frames_wire(rest);
        let s = frames_wire(fs);
        assert(s == head + tail);
        assert(frame_encodable(fs[0]));
        lemma_decode_frame(fs[0], tail);
        lemma_decode_one_len(s);
        assert(head.len() >= 1);
        assert(s.subrange(head.len() as int, s.len() as int) =~= tail);
        assert(seq![fs[0]] + rest =~= fs);
    }
}

/// A record made of a header and the bytes of its argument frames decodes
/// to that header and those frames, whatever follows it.
pub proof fn lemma_decode_record_encoded(h: RecordHeader, fs: Seq<Frame>, rest: Seq<u8>)
    requires
        forall|i: int| 0 <= i < fs.len() ==> frame_encodable(#[trigger] fs[i]),
        h.encoded_args_size == frames_wire(fs).len(),
    ensures
        spec_decode_record(crate::record::header_bytes(h) + frames_wire(fs) + rest) == Ok::<
            (RecordHeader, Seq<Frame>, Option<DecodeError>),
            DecodeError,
        >((h, fs, None)),
{
    let hb = crate::record::header_bytes(h);
    let body = frames_wire(fs);
    let s = hb + body + rest;
    crate::record::lemma_header_roundtrip(h, body + rest);
    assert(s =~= hb + (body + rest));
    assert(s.subrange(24, 24 + body.len() as int) =~= body);
    lemma_decode_frames(fs);
}

} // verus!
