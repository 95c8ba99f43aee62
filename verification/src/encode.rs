//! Binary encoding of log arguments.
//!
//! Each argument is a one-byte [`TypeTag`] followed by its value, least
//! significant byte first. Strings carry a `u32` byte length before their
//! UTF-8 bytes; `usize` and `isize` always travel as eight bytes. A
//! user-defined argument carries an eight-byte decoder token, a `u32` payload
//! length and the payload bytes.

use crate::bytes::{
    le_bytes, lemma_le_bytes_len, lemma_radix_values, push_le, radix, to_twos, twos,
};
use vstd::prelude::*;
use vstd::utf8::encode_utf8;

verus! {

/// Discriminant tag written before each encoded argument.
#[derive(Debug, Clone, Copy, PartialEq, Eq, Structural)]
pub enum TypeTag {
    /// `i8` value (1 byte).
    I8,
    /// `i16` value (2 bytes).
    I16,
    /// `i32` value (4 bytes).
    I32,
    /// `i64` value (8 bytes).
    I64,
    /// `i128` value (16 bytes).
    I128,
    /// `u8` value (1 byte).
    U8,
    /// `u16` value (2 bytes).
    U16,
    /// `u32` value (4 bytes).
    U32,
    /// `u64` value (8 bytes).
    U64,
    /// `u128` value (16 bytes).
    U128,
    /// `f32` value (4 bytes of its bit pattern).
    F32,
    /// `f64` value (8 bytes of its bit pattern).
    F64,
    /// `bool` value (1 byte, 0 or 1).
    Bool,
    /// `&str` value (`u32` length prefix + UTF-8 bytes).
    Str,
    /// `usize` value (widened to `u64`, 8 bytes).
    Usize,
    /// `isize` value (widened to `i64`, 8 bytes).
    Isize,
    /// User-defined value: decoder token (8 bytes) + `u32` payload length +
    /// payload bytes.
    Custom,
}

impl TypeTag {
    /// The byte that stands for this tag on the wire.
    pub open spec fn spec_byte(self) -> u8 {
        match self {
            TypeTag::I8 => 0,
            TypeTag::I16 => 1,
            TypeTag::I32 => 2,
            TypeTag::I64 => 3,
            TypeTag::I128 => 4,
            TypeTag::U8 => 5,
            TypeTag::U16 => 6,
            TypeTag::U32 => 7,
            TypeTag::U64 => 8,
            TypeTag::U128 => 9,
            TypeTag::F32 => 10,
            TypeTag::F64 => 11,
            TypeTag::Bool => 12,
            TypeTag::Str => 13,
            TypeTag::Usize => 14,
            TypeTag::Isize => 15,
            TypeTag::Custom => 16,
        }
    }

    /// The tag whose byte is `b`, if any.
    pub open spec fn spec_from_byte(b: u8) -> Option<TypeTag> {
        if b == 0 {
            Some(TypeTag::I8)
        } else if b == 1 {
            Some(TypeTag::I16)
        } else if b == 2 {
            Some(TypeTag::I32)
        } else if b == 3 {
            Some(TypeTag::I64)
        } else if b == 4 {
            Some(TypeTag::I128)
        } else if b == 5 {
            Some(TypeTag::U8)
        } else if b == 6 {
            Some(TypeTag::U16)
        } else if b == 7 {
            Some(TypeTag::U32)
        } else if b == 8 {
            Some(TypeTag::U64)
        } else if b == 9 {
            Some(TypeTag::U128)
        } else if b == 10 {
            Some(TypeTag::F32)
        } else if b == 11 {
            Some(TypeTag::F64)
        } else if b == 12 {
            Some(TypeTag::Bool)
        } else if b == 13 {
            Some(TypeTag::Str)
        } else if b == 14 {
            Some(TypeTag::Usize)
        } else if b == 15 {
            Some(TypeTag::Isize)
        } else if b == 16 {
            Some(TypeTag::Custom)
        } else {
            None
        }
    }

    /// Returns the byte that stands for this tag.
    #[verifier::when_used_as_spec(spec_byte)]
    pub fn to_u8(self) -> (b: u8)
        ensures
            b == self.spec_byte(),
    {
        match self {
            TypeTag::I8 => 0,
            TypeTag::I16 => 1,
            TypeTag::I32 => 2,
            TypeTag::I64 => 3,
            TypeTag::I128 => 4,
            TypeTag::U8 => 5,
            TypeTag::U16 => 6,
            TypeTag::U32 => 7,
            TypeTag::U64 => 8,
            TypeTag::U128 => 9,
            TypeTag::F32 => 10,
            TypeTag::F64 => 11,
            TypeTag::Bool => 12,
            TypeTag::Str => 13,
            TypeTag::Usize => 14,
            TypeTag::Isize => 15,
            TypeTag::Custom => 16,
        }
    }

    /// Converts a wire byte back to a tag; `Err(())` when it names none.
    pub fn try_from_u8(value: u8) -> (r: Result<TypeTag, ()>)
        ensures
            r matches Ok(t) ==> Self::spec_from_byte(value) == Some(t),
            r is Err ==> Self::spec_from_byte(value) is None,
    {
        match value {
            0 => Ok(TypeTag::I8),
            1 => Ok(TypeTag::I16),
            2 => Ok(TypeTag::I32),
            3 => Ok(TypeTag::I64),
            4 => Ok(TypeTag::I128),
            5 => Ok(TypeTag::U8),
            6 => Ok(TypeTag::U16),
            7 => Ok(TypeTag::U32),
            8 => Ok(TypeTag::U64),
            9 => Ok(TypeTag::U128),
            10 => Ok(TypeTag::F32),
            11 => Ok(TypeTag::F64),
            12 => Ok(TypeTag::Bool),
            13 => Ok(TypeTag::Str),
            14 => Ok(TypeTag::Usize),
            15 => Ok(TypeTag::Isize),
            16 => Ok(TypeTag::Custom),
            _ => Err(()),
        }
    }

    /// The number of value bytes after the tag, for tags of fixed width.
    pub open spec fn spec_fixed_width(self) -> Option<nat> {
        match self {
            TypeTag::I8 | TypeTag::U8 | TypeTag::Bool => Some(1),
            TypeTag::I16 | TypeTag::U16 => Some(2),
            TypeTag::I32 | TypeTag::U32 | TypeTag::F32 => Some(4),
            TypeTag::I64 | TypeTag::U64 | TypeTag::F64 | TypeTag::Usize | TypeTag::Isize => Some(
                8,
            ),
            TypeTag::I128 | TypeTag::U128 => Some(16),
            TypeTag::Str | TypeTag::Custom => None,
        }
    }
}

impl TryFrom<u8> for TypeTag {
    type Error = ();

    /// Converts a wire byte back to a tag; `Err(())` when it names none.
    fn try_from(value: u8) -> (r: Result<TypeTag, ()>) {
        match TypeTag::try_from_u8(value) {
            Ok(t) => Ok(t),
            Err(_) => Err(()),
        }
    }
}

impl vstd::std_specs::convert::TryFromSpecImpl<u8> for TypeTag {
    open spec fn obeys_try_from_spec() -> bool {
        true
    }

    open spec fn try_from_spec(value: u8) -> Result<TypeTag, ()> {
        match TypeTag::spec_from_byte(value) {
            Some(t) => Ok(t),
            None => Err(()),
        }
    }
}

/// Every tag survives the trip to its byte and back.
pub proof fn lemma_tag_byte_roundtrip(t: TypeTag)
    ensures
        TypeTag::spec_from_byte(t.spec_byte()) == Some(t),
{
}

/// The value of one argument, as the wire format sees it.
///
/// Floating-point values are carried by their IEEE-754 bit patterns; a
/// user-defined value by the text its decoder produced.
pub enum ArgModel {
    I8(i8),
    I16(i16),
    I32(i32),
    I64(i64),
    I128(i128),
    U8(u8),
    U16(u16),
    U32(u32),
    U64(u64),
    U128(u128),
    F32(u32),
    F64(u64),
    Bool(bool),
    Str(Seq<char>),
    Usize(u64),
    Isize(i64),
    Custom(Seq<char>),
}

/// The tag written in front of a value.
pub open spec fn tag_of(m: ArgModel) -> TypeTag {
    match m {
        ArgModel::I8(_) => TypeTag::I8,
        ArgModel::I16(_) => TypeTag::I16,
        ArgModel::I32(_) => TypeTag::I32,
        ArgModel::I64(_) => TypeTag::I64,
        ArgModel::I128(_) => TypeTag::I128,
        ArgModel::U8(_) => TypeTag::U8,
        ArgModel::U16(_) => TypeTag::U16,
        ArgModel::U32(_) => TypeTag::U32,
        ArgModel::U64(_) => TypeTag::U64,
        ArgModel::U128(_) => TypeTag::U128,
        ArgModel::F32(_) => TypeTag::F32,
        ArgModel::F64(_) => TypeTag::F64,
        ArgModel::Bool(_) => TypeTag::Bool,
        ArgModel::Str(_) => TypeTag::Str,
        ArgModel::Usize(_) => TypeTag::Usize,
        ArgModel::Isize(_) => TypeTag::Isize,
        ArgModel::Custom(_) => TypeTag::Custom,
    }
}

/// The bytes of a string argument after its tag.
pub open spec fn str_payload(cs: Seq<char>) -> Seq<u8> {
    le_bytes(encode_utf8(cs).len(), 4) + encode_utf8(cs)
}

/// The bytes written after the tag of a value.
pub open spec fn payload_of(m: ArgModel) -> Seq<u8> {
    match m {
        ArgModel::I8(v) => le_bytes(twos(v as int, 1), 1),
        ArgModel::I16(v) => le_bytes(twos(v as int, 2), 2),
        ArgModel::I32(v) => le_bytes(twos(v as int, 4), 4),
        ArgModel::I64(v) => le_bytes(twos(v as int, 8), 8),
        ArgModel::I128(v) => le_bytes(twos(v as int, 16), 16),
        ArgModel::U8(v) => le_bytes(v as nat, 1),
        ArgModel::U16(v) => le_bytes(v as nat, 2),
        ArgModel::U32(v) => le_bytes(v as nat, 4),
        ArgModel::U64(v) => le_bytes(v as nat, 8),
        ArgModel::U128(v) => le_bytes(v as nat, 16),
        ArgModel::F32(b) => le_bytes(b as nat, 4),
        ArgModel::F64(b) => le_bytes(b as nat, 8),
        ArgModel::Bool(b) => seq![
            if b {
                1u8
            } else {
                0u8
            },
        ],
        ArgModel::Str(cs) => str_payload(cs),
        ArgModel::Usize(v) => le_bytes(v as nat, 8),
        ArgModel::Isize(v) => le_bytes(twos(v as int, 8), 8),
        ArgModel::Custom(_) => Seq::empty(),
    }
}

/// The complete encoding of a value: its tag byte, then its payload.
pub open spec fn wire_of(m: ArgModel) -> Seq<u8> {
    seq![tag_of(m).spec_byte()] + payload_of(m)
}

/// Whether a value can be written: a string's byte length must fit a `u32`
/// (and its encoding must fit in memory), and a
/// user-defined value is written through [`encode_custom`] instead.
pub open spec fn encodable(m: ArgModel) -> bool {
    match m {
        ArgModel::Str(cs) => encode_utf8(cs).len() <= u32::MAX && 5 + encode_utf8(cs).len()
            <= usize::MAX,
        ArgModel::Custom(_) => false,
        _ => true,
    }
}

/// The complete encoding of a user-defined value.
pub open spec fn custom_wire(decoder: u64, payload: Seq<u8>) -> Seq<u8> {
    seq![TypeTag::Custom.spec_byte()] + le_bytes(decoder as nat, 8) + le_bytes(
        payload.len(),
        4,
    ) + payload
}

/// Types whose values can be written as one argument of a log record.
pub trait Encode {
    /// The value this argument stands for.
    spec fn spec_model(&self) -> ArgModel;

    /// The tag written in front of this value.
    fn tag(&self) -> (t: TypeTag)
        ensures
            t == tag_of(self.spec_model()),
    ;

    /// The total number of bytes this value takes, tag included.
    fn encoded_size(&self) -> (r: usize)
        requires
            encodable(self.spec_model()),
        ensures
            r == wire_of(self.spec_model()).len(),
    ;

    /// Appends the tag and the encoded value to `out`.
    fn encode_to(&self, out: &mut Vec<u8>)
        requires
            encodable(self.spec_model()),
        ensures
            final(out)@ == old(out)@ + wire_of(self.spec_model()),
    ;
}

/// Appends all of `bytes` to `out`.
pub fn push_bytes(out: &mut Vec<u8>, bytes: &[u8])
    ensures
        final(out)@ == old(out)@ + bytes@,
{
    let n = bytes.len();
    let mut i: usize = 0;
    while i < n
        invariant
            i <= n,
            n == bytes@.len(),
            out@ == old(out)@ + bytes@.subrange(0, i as int),
        decreases n - i,
    {
        out.push(bytes[i]);
        i = i + 1;
        assert(out@ =~= old(out)@ + bytes@.subrange(0, i as int));
    }
    assert(bytes@.subrange(0, n as int) =~= bytes@);
}

/// Appends a tag byte and an `n`-byte unsigned value.
fn encode_unsigned(out: &mut Vec<u8>, tag: TypeTag, v: u128, n: usize)
    requires
        n <= 16,
    ensures
        final(out)@ == old(out)@ + (seq![tag.spec_byte()] + le_bytes(v as nat, n as nat)),
{
    out.push(tag.to_u8());
    push_le(out, v, n);
    assert(final(out)@ =~= old(out)@ + (seq![tag.spec_byte()] + le_bytes(v as nat, n as nat)));
}

/// Appends a tag byte and an `n`-byte two's-complement value.
fn encode_signed(out: &mut Vec<u8>, tag: TypeTag, v: i128, n: usize)
    requires
        n == 1 || n == 2 || n == 4 || n == 8 || n == 16,
        crate::bytes::fits_signed(v as int, n as nat),
    ensures
        final(out)@ == old(out)@ + (seq![tag.spec_byte()] + le_bytes(
            twos(v as int, n as nat),
            n as nat,
        )),
{
    let u = to_twos(v, n);
    encode_unsigned(out, tag, u, n);
}

/// Half the radix of each signed width of the wire format.
proof fn lemma_widths_fit()
    ensures
        radix(1) / 2 == 0x80,
        radix(2) / 2 == 0x8000,
        radix(4) / 2 == 0x8000_0000,
        radix(8) / 2 == 0x8000_0000_0000_0000,
        radix(16) / 2 == 0x8000_0000_0000_0000_0000_0000_0000_0000,
{
    lemma_radix_values();
}

impl Encode for i8 {
    open spec fn spec_model(&self) -> ArgModel {
        ArgModel::I8(*self)
    }

    fn tag(&self) -> (t: TypeTag) {
        TypeTag::I8
    }

    fn encoded_size(&self) -> (r: usize) {
        proof {
            lemma_le_bytes_len(twos(*self as int, 1), 1);
        }
        2
    }

    fn encode_to(&self, out: &mut Vec<u8>) {
        proof {
            lemma_widths_fit();
        }
        encode_signed(out, TypeTag::I8, *self as i128, 1);
    }
}

impl Encode for i16 {
    open spec fn spec_model(&self) -> ArgModel {
        ArgModel::I16(*self)
    }

    fn tag(&self) -> (t: TypeTag) {
        TypeTag::I16
    }

    fn encoded_size(&self) -> (r: usize) {
        proof {
            lemma_le_bytes_len(twos(*self as int, 2), 2);
        }
        3
    }

    fn encode_to(&self, out: &mut Vec<u8>) {
        proof {
            lemma_widths_fit();
        }
        encode_signed(out, TypeTag::I16, *self as i128, 2);
    }
}

impl Encode for i32 {
    open spec fn spec_model(&self) -> ArgModel {
        ArgModel::I32(*self)
    }

    fn tag(&self) -> (t: TypeTag) {
        TypeTag::I32
    }

    fn encoded_size(&self) -> (r: usize) {
        proof {
            lemma_le_bytes_len(twos(*self as int, 4), 4);
        }
        5
    }

    fn encode_to(&self, out: &mut Vec<u8>) {
        proof {
            lemma_widths_fit();
        }
        encode_signed(out, TypeTag::I32, *self as i128, 4);
    }
}

impl Encode for i64 {
    open spec fn spec_model(&self) -> ArgModel {
        ArgModel::I64(*self)
    }

    fn tag(&self) -> (t: TypeTag) {
        TypeTag::I64
    }

    fn encoded_size(&self) -> (r: usize) {
        proof {
            lemma_le_bytes_len(twos(*self as int, 8), 8);
        }
        9
    }

    fn encode_to(&self, out: &mut Vec<u8>) {
        proof {
            lemma_widths_fit();
        }
        encode_signed(out, TypeTag::I64, *self as i128, 8);
    }
}

impl Encode for i128 {
    open spec fn spec_model(&self) -> ArgModel {
        ArgModel::I128(*self)
    }

    fn tag(&self) -> (t: TypeTag) {
        TypeTag::I128
    }

    fn encoded_size(&self) -> (r: usize) {
        proof {
            lemma_le_bytes_len(twos(*self as int, 16), 16);
        }
        17
    }

    fn encode_to(&self, out: &mut Vec<u8>) {
        proof {
            lemma_widths_fit();
        }
        encode_signed(out, TypeTag::I128, *self, 16);
    }
}

impl Encode for u8 {
    open spec fn spec_model(&self) -> ArgModel {
        ArgModel::U8(*self)
    }

    fn tag(&self) -> (t: TypeTag) {
        TypeTag::U8
    }

    fn encoded_size(&self) -> (r: usize) {
        proof {
            lemma_le_bytes_len(*self as nat, 1);
        }
        2
    }

    fn encode_to(&self, out: &mut Vec<u8>) {
        encode_unsigned(out, TypeTag::U8, *self as u128, 1);
    }
}

impl Encode for u16 {
    open spec fn spec_model(&self) -> ArgModel {
        ArgModel::U16(*self)
    }

    fn tag(&self) -> (t: TypeTag) {
        TypeTag::U16
    }

    fn encoded_size(&self) -> (r: usize) {
        proof {
            lemma_le_bytes_len(*self as nat, 2);
        }
        3
    }

    fn encode_to(&self, out: &mut Vec<u8>) {
        encode_unsigned(out, TypeTag::U16, *self as u128, 2);
    }
}

impl Encode for u32 {
    open spec fn spec_model(&self) -> ArgModel {
        ArgModel::U32(*self)
    }

    fn tag(&self) -> (t: TypeTag) {
        TypeTag::U32
    }

    fn encoded_size(&self) -> (r: usize) {
        proof {
            lemma_le_bytes_len(*self as nat, 4);
        }
        5
    }

    fn encode_to(&self, out: &mut Vec<u8>) {
        encode_unsigned(out, TypeTag::U32, *self as u128, 4);
    }
}

impl Encode for u64 {
    open spec fn spec_model(&self) -> ArgModel {
        ArgModel::U64(*self)
    }

    fn tag(&self) -> (t: TypeTag) {
        TypeTag::U64
    }

    fn encoded_size(&self) -> (r: usize) {
        proof {
            lemma_le_bytes_len(*self as nat, 8);
        }
        9
    }

    fn encode_to(&self, out: &mut Vec<u8>) {
        encode_unsigned(out, TypeTag::U64, *self as u128, 8);
    }
}

impl Encode for u128 {
    open spec fn spec_model(&self) -> ArgModel {
        ArgModel::U128(*self)
    }

    fn tag(&self) -> (t: TypeTag) {
        TypeTag::U128
    }

    fn encoded_size(&self) -> (r: usize) {
        proof {
            lemma_le_bytes_len(*self as nat, 16);
        }
        17
    }

    fn encode_to(&self, out: &mut Vec<u8>) {
        encode_unsigned(out, TypeTag::U128, *self, 16);
    }
}

impl Encode for usize {
    open spec fn spec_model(&self) -> ArgModel {
        ArgModel::Usize(*self as u64)
    }

    fn tag(&self) -> (t: TypeTag) {
        TypeTag::Usize
    }

    fn encoded_size(&self) -> (r: usize) {
        proof {
            lemma_le_bytes_len(*self as u64 as nat, 8);
        }
        9
    }

    fn encode_to(&self, out: &mut Vec<u8>) {
        let v: u64 = *self as u64;
        encode_unsigned(out, TypeTag::Usize, v as u128, 8);
    }
}

impl Encode for isize {
    open spec fn spec_model(&self) -> ArgModel {
        ArgModel::Isize(*self as i64)
    }

    fn tag(&self) -> (t: TypeTag) {
        TypeTag::Isize
    }

    fn encoded_size(&self) -> (r: usize) {
        proof {
            lemma_le_bytes_len(twos(*self as i64 as int, 8), 8);
        }
        9
    }

    fn encode_to(&self, out: &mut Vec<u8>) {
        proof {
            lemma_widths_fit();
        }
        let v: i64 = *self as i64;
        encode_signed(out, TypeTag::Isize, v as i128, 8);
    }
}

impl Encode for bool {
    open spec fn spec_model(&self) -> ArgModel {
        ArgModel::Bool(*self)
    }

    fn tag(&self) -> (t: TypeTag) {
        TypeTag::Bool
    }

    fn encoded_size(&self) -> (r: usize) {
        2
    }

    fn encode_to(&self, out: &mut Vec<u8>) {
        out.push(TypeTag::Bool.to_u8());
        out.push(if *self { 1u8 } else { 0u8 });
        assert(final(out)@ =~= old(out)@ + wire_of(self.spec_model()));
    }
}

/// A 32-bit floating-point argument, carried by its IEEE-754 bit pattern.
#[derive(Debug, Clone, Copy, PartialEq, Eq, Structural)]
pub struct F32Bits(pub u32);

/// A 64-bit floating-point argument, carried by its IEEE-754 bit pattern.
#[derive(Debug, Clone, Copy, PartialEq, Eq, Structural)]
pub struct F64Bits(pub u64);

impl Encode for F32Bits {
    open spec fn spec_model(&self) -> ArgModel {
        ArgModel::F32(self.0)
    }

    fn tag(&self) -> (t: TypeTag) {
        TypeTag::F32
    }

    fn encoded_size(&self) -> (r: usize) {
        proof {
            lemma_le_bytes_len(self.0 as nat, 4);
        }
        5
    }

    fn encode_to(&self, out: &mut Vec<u8>) {
        encode_unsigned(out, TypeTag::F32, self.0 as u128, 4);
    }
}

impl Encode for F64Bits {
    open spec fn spec_model(&self) -> ArgModel {
        ArgModel::F64(self.0)
    }

    fn tag(&self) -> (t: TypeTag) {
        TypeTag::F64
    }

    fn encoded_size(&self) -> (r: usize) {
        proof {
            lemma_le_bytes_len(self.0 as nat, 8);
        }
        9
    }

    fn encode_to(&self, out: &mut Vec<u8>) {
        encode_unsigned(out, TypeTag::F64, self.0 as u128, 8);
    }
}

impl<'a> Encode for &'a str {
    open spec fn spec_model(&self) -> ArgModel {
        ArgModel::Str((**self)@)
    }

    fn tag(&self) -> (t: TypeTag) {
        TypeTag::Str
    }

    fn encoded_size(&self) -> (r: usize) {
        proof {
            lemma_le_bytes_len(encode_utf8((**self)@).len(), 4);
        }
        let bytes = (**self).as_bytes();
        assert(bytes@.len() == encode_utf8((**self)@).len());
        5 + bytes.len()
    }

    fn encode_to(&self, out: &mut Vec<u8>) {
        let bytes = (**self).as_bytes();
        let len = bytes.len();
        encode_unsigned(out, TypeTag::Str, len as u128, 4);
        push_bytes(out, bytes);
        assert(final(out)@ =~= old(out)@ + wire_of(self.spec_model()));
    }
}

/// Appends a user-defined argument: its tag, the decoder token, the payload
/// length and the payload.
pub fn encode_custom(out: &mut Vec<u8>, decoder: u64, payload: &[u8])
    requires
        payload@.len() <= u32::MAX,
    ensures
        final(out)@ == old(out)@ + custom_wire(decoder, payload@),
{
    out.push(TypeTag::Custom.to_u8());
    push_le(out, decoder as u128, 8);
    push_le(out, payload.len() as u128, 4);
    push_bytes(out, payload);
    assert(final(out)@ =~= old(out)@ + custom_wire(decoder, payload@));
}

/// The number of bytes a user-defined argument with `payload_len` payload
/// bytes takes, tag included.
pub fn custom_encoded_size(payload_len: usize) -> (r: usize)
    requires
        payload_len <= u32::MAX,
        13 + payload_len <= usize::MAX,
    ensures
        r == 13 + payload_len,
        forall|decoder: u64, payload: Seq<u8>|
            payload.len() == payload_len ==> #[trigger] custom_wire(decoder, payload).len() == r,
{
    assert forall|decoder: u64, payload: Seq<u8>|
        payload.len() == payload_len implies #[trigger] custom_wire(decoder, payload).len() == 13
        + payload_len by {
        lemma_le_bytes_len(decoder as nat, 8);
        lemma_le_bytes_len(payload.len(), 4);
    }
    13 + payload_len
}

/// Appends a user-defined argument made of `decoder` and `payload`, or
/// nothing when the payload is longer than its `u32` length prefix allows;
/// returns whether it was appended.
pub fn encode_custom_checked(out: &mut Vec<u8>, decoder: u64, payload: &[u8]) -> (ok: bool)
    ensures
        ok == (payload@.len() <= u32::MAX),
        ok ==> final(out)@ == old(out)@ + custom_wire(decoder, payload@),
        !ok ==> final(out)@ == old(out)@,
{
    if payload.len() > u32::MAX as usize {
        return false;
    }
    encode_custom(out, decoder, payload);
    true
}

/// The number of bytes a user-defined argument with `payload_len` payload
/// bytes takes, tag included, if the payload fits its `u32` length prefix
/// and the total fits a `usize`.
pub open spec fn spec_custom_size(payload_len: nat) -> Option<usize> {
    if payload_len <= u32::MAX && payload_len + 13 <= usize::MAX {
        Some((13 + payload_len) as usize)
    } else {
        None
    }
}

/// Returns the number of bytes a user-defined argument with `payload_len`
/// payload bytes takes, tag included; `None` when the payload is longer
/// than its `u32` length prefix allows, or the total overflows `usize`.
pub fn custom_size_for(payload_len: usize) -> (r: Option<usize>)
    ensures
        r == spec_custom_size(payload_len as nat),
        r matches Some(n) ==> forall|decoder: u64, payload: Seq<u8>|
            payload.len() == payload_len ==> #[trigger] custom_wire(decoder, payload).len() == n,
{
    if payload_len > u32::MAX as usize || payload_len > usize::MAX - 13 {
        return None;
    }
    Some(custom_encoded_size(payload_len))
}

/// A user-defined type that can be logged as an argument.
///
/// The value is carried as raw payload bytes together with a token naming
/// the decoder that turns those bytes back into text on the backend; the
/// token must be the same for every value of the type, and the payload is
/// `payload_size()` bytes long.
pub trait CustomEncode {
    /// Returns the number of payload bytes.
    fn payload_size(&self) -> usize;

    /// Returns the payload bytes.
    fn encode_payload(&self) -> Vec<u8>;

    /// Returns the decoder token of this type.
    fn decoder_id() -> u64;
}

/// Whether `n` is a value that `value.payload_size()` returns.
pub open spec fn size_returned<T: CustomEncode>(value: &T, n: usize) -> bool {
    call_ensures(T::payload_size, (value,), n)
}

/// Whether `payload` is a value that `value.encode_payload()` returns.
pub open spec fn payload_returned<T: CustomEncode>(value: &T, payload: Vec<u8>) -> bool {
    call_ensures(T::encode_payload, (value,), payload)
}

/// Whether `token` is a value that `T::decoder_id()` returns.
pub open spec fn token_returned<T: CustomEncode>(token: u64) -> bool {
    call_ensures(T::decoder_id, (), token)
}

/// Appends `value` as an argument: its tag, the token `T::decoder_id()`
/// gave, the length of the payload `encode_payload` gave, and that payload.
/// A payload longer than `u32::MAX` bytes is refused: nothing is appended
/// and `false` comes back.
pub fn encode_custom_value<T: CustomEncode>(value: &T, out: &mut Vec<u8>) -> (ok: bool)
    ensures
        exists|token: u64, payload: Vec<u8>|
            #![trigger token_returned::<T>(token), payload_returned(value, payload)]
            {
                &&& token_returned::<T>(token)
                &&& payload_returned(value, payload)
                &&& ok == (payload@.len() <= u32::MAX)
                &&& ok ==> final(out)@ == old(out)@ + custom_wire(token, payload@)
                &&& !ok ==> final(out)@ == old(out)@
            },
{
    let payload = value.encode_payload();
    let token = T::decoder_id();
    let ok = encode_custom_checked(out, token, payload.as_slice());
    assert(token_returned::<T>(token) && payload_returned(value, payload));
    ok
}

/// Returns the number of bytes `value` takes as an argument, tag included,
/// going by the payload size `value.payload_size()` gives; `None` when that
/// is longer than the wire format's `u32` length prefix allows.
pub fn custom_value_size<T: CustomEncode>(value: &T) -> (r: Option<usize>)
    ensures
        exists|n: usize| #[trigger] size_returned(value, n) && r == spec_custom_size(n as nat),
{
    let n = value.payload_size();
    assert(size_returned(value, n));
    custom_size_for(n)
}

} // verus!
