//! The first-generation interface to the wire format.
//!
//! Sixteen argument types and no user-defined ones; an [`Encode`] trait
//! whose implementations write the value bytes only, the tag being written
//! by the caller; and decoding that reports any failure as `None`. The
//! bytes on the wire are those of the current format.

pub use crate::metadata::LogMetadata;
pub use crate::record::RecordHeader;

use crate::decode::{
    arg_matches, decode_one as decode_current_one, decode_record as decode_current_record,
    record_outcome, resolve_fails, resolver_total, spec_decode_one, spec_decode_record, DecodeError,
    DecodedArg, Frame, RawDecodedRecord,
};
use crate::encode::{encodable, payload_of, tag_of, ArgModel};
use vstd::prelude::*;

verus! {

/// Discriminant tag written before each encoded argument.
#[derive(Debug, Clone, Copy, PartialEq, Eq, Structural)]
pub enum TypeTag {
    /// `i8` value (1 byte).
    I8,
    /// `i16` value (2 bytes).
    I16,
    /// `i32` value (4 bytes).
    I32,
    /// `i64` value (8 bytes).
    I64,
    /// `i128` value (16 bytes).
    I128,
    /// `u8` value (1 byte).
    U8,
    /// `u16` value (2 bytes).
    U16,
    /// `u32` value (4 bytes).
    U32,
    /// `u64` value (8 bytes).
    U64,
    /// `u128` value (16 bytes).
    U128,
    /// `f32` value (4 bytes of its bits).
    F32,
    /// `f64` value (8 bytes of its bits).
    F64,
    /// `bool` value (1 byte, 0 or 1).
    Bool,
    /// String (`u32` length prefix, then UTF-8 bytes).
    Str,
    /// `usize` value (as `u64`, 8 bytes).
    Usize,
    /// `isize` value (as `i64`, 8 bytes).
    Isize,
}

impl TypeTag {
    /// The tag of the current format with the same byte.
    pub open spec fn current(self) -> crate::encode::TypeTag {
        match self {
            TypeTag::I8 => crate::encode::TypeTag::I8,
            TypeTag::I16 => crate::encode::TypeTag::I16,
            TypeTag::I32 => crate::encode::TypeTag::I32,
            TypeTag::I64 => crate::encode::TypeTag::I64,
            TypeTag::I128 => crate::encode::TypeTag::I128,
            TypeTag::U8 => crate::encode::TypeTag::U8,
            TypeTag::U16 => crate::encode::TypeTag::U16,
            TypeTag::U32 => crate::encode::TypeTag::U32,
            TypeTag::U64 => crate::encode::TypeTag::U64,
            TypeTag::U128 => crate::encode::TypeTag::U128,
            TypeTag::F32 => crate::encode::TypeTag::F32,
            TypeTag::F64 => crate::encode::TypeTag::F64,
            TypeTag::Bool => crate::encode::TypeTag::Bool,
            TypeTag::Str => crate::encode::TypeTag::Str,
            TypeTag::Usize => crate::encode::TypeTag::Usize,
            TypeTag::Isize => crate::encode::TypeTag::Isize,
        }
    }

    /// The byte of this tag.
    pub open spec fn spec_byte(self) -> u8 {
        self.current().spec_byte()
    }

    /// Returns the byte of this tag.
    pub fn to_u8(self) -> (b: u8)
        ensures
            b == self.spec_byte(),
    {
        match self {
            TypeTag::I8 => 0,
            TypeTag::I16 => 1,
            TypeTag::I32 => 2,
            TypeTag::I64 => 3,
            TypeTag::I128 => 4,
            TypeTag::U8 => 5,
            TypeTag::U16 => 6,
            TypeTag::U32 => 7,
            TypeTag::U64 => 8,
            TypeTag::U128 => 9,
            TypeTag::F32 => 10,
            TypeTag::F64 => 11,
            TypeTag::Bool => 12,
            TypeTag::Str => 13,
            TypeTag::Usize => 14,
            TypeTag::Isize => 15,
        }
    }

    /// The tag whose byte is `b`, if any.
    pub open spec fn spec_from_byte(b: u8) -> Option<TypeTag> {
        match b {
            0 => Some(TypeTag::I8),
            1 => Some(TypeTag::I16),
            2 => Some(TypeTag::I32),
            3 => Some(TypeTag::I64),
            4 => Some(TypeTag::I128),
            5 => Some(TypeTag::U8),
            6 => Some(TypeTag::U16),
            7 => Some(TypeTag::U32),
            8 => Some(TypeTag::U64),
            9 => Some(TypeTag::U128),
            10 => Some(TypeTag::F32),
            11 => Some(TypeTag::F64),
            12 => Some(TypeTag::Bool),
            13 => Some(TypeTag::Str),
            14 => Some(TypeTag::Usize),
            15 => Some(TypeTag::Isize),
            _ => None,
        }
    }

    /// Returns the tag whose byte is `value`; bytes above 15 name none.
    pub fn try_from_u8(value: u8) -> (r: Result<TypeTag, ()>)
        ensures
            r matches Ok(t) ==> t.spec_byte() == value && Self::spec_from_byte(value) == Some(t),
            r is Err <==> value > 15,
            r is Err <==> Self::spec_from_byte(value) is None,
    {
        match value {
            0 => Ok(TypeTag::I8),
            1 => Ok(TypeTag::I16),
            2 => Ok(TypeTag::I32),
            3 => Ok(TypeTag::I64),
            4 => Ok(TypeTag::I128),
            5 => Ok(TypeTag::U8),
            6 => Ok(TypeTag::U16),
            7 => Ok(TypeTag::U32),
            8 => Ok(TypeTag::U64),
            9 => Ok(TypeTag::U128),
            10 => Ok(TypeTag::F32),
            11 => Ok(TypeTag::F64),
            12 => Ok(TypeTag::Bool),
            13 => Ok(TypeTag::Str),
            14 => Ok(TypeTag::Usize),
            15 => Ok(TypeTag::Isize),
            _ => Err(()),
        }
    }
}

impl TryFrom<u8> for TypeTag {
    type Error = ();

    /// Converts a wire byte back to a tag; `Err(())` when it names none.
    fn try_from(value: u8) -> (r: Result<TypeTag, ()>) {
        match TypeTag::try_from_u8(value) {
            Ok(t) => Ok(t),
            Err(_) => Err(()),
        }
    }
}

impl vstd::std_specs::convert::TryFromSpecImpl<u8> for TypeTag {
    open spec fn obeys_try_from_spec() -> bool {
        true
    }

    open spec fn try_from_spec(value: u8) -> Result<TypeTag, ()> {
        match TypeTag::spec_from_byte(value) {
            Some(t) => Ok(t),
            None => Err(()),
        }
    }
}

/// A value that can be written as an argument; the caller writes the tag.
pub trait Encode {
    /// The value this argument stands for.
    spec fn spec_value(&self) -> ArgModel;

    /// Returns the byte of the tag to write in front of the value.
    fn tag(&self) -> (t: u8)
        ensures
            t == tag_of(self.spec_value()).spec_byte(),
    ;

    /// Returns the number of value bytes, tag excluded.
    fn encoded_size(&self) -> (r: usize)
        requires
            encodable(self.spec_value()),
        ensures
            r == payload_of(self.spec_value()).len(),
    ;

    /// Appends the value bytes (not the tag) to `out`; returns their
    /// number.
    fn encode_to(&self, out: &mut Vec<u8>) -> (n: usize)
        requires
            encodable(self.spec_value()),
        ensures
            final(out)@ == old(out)@ + payload_of(self.spec_value()),
            n == payload_of(self.spec_value()).len(),
    ;
}

impl<T: crate::encode::Encode> Encode for T {
    open spec fn spec_value(&self) -> ArgModel {
        self.spec_model()
    }

    fn tag(&self) -> (t: u8) {
        crate::encode::Encode::tag(self).to_u8()
    }

    fn encoded_size(&self) -> (r: usize) {
        crate::encode::Encode::encoded_size(self) - 1
    }

    fn encode_to(&self, out: &mut Vec<u8>) -> (n: usize) {
        let mut tagged: Vec<u8> = Vec::new();
        crate::encode::Encode::encode_to(self, &mut tagged);
        let n = tagged.len();
        let mut i: usize = 1;
        while i < n
            invariant
                1 <= i <= n,
                n == tagged@.len(),
                tagged@ == seq![tag_of(self.spec_model()).spec_byte()] + payload_of(self.spec_model()),
                out@ == old(out)@ + tagged@.subrange(1, i as int),
            decreases n - i,
        {
            out.push(tagged[i]);
            i = i + 1;
            assert(out@ =~= old(out)@ + tagged@.subrange(1, i as int));
        }
        assert(tagged@.subrange(1, n as int) =~= payload_of(self.spec_model()));
        n - 1
    }
}

/// What the argument at the start of `s` decodes to, and how many bytes it
/// takes, tag included: a plain value of the current format, the tag of a
/// user-defined value being unknown here.
pub open spec fn spec_decode_one_plain(s: Seq<u8>) -> Option<(ArgModel, nat)> {
    if s.len() > 0 && s[0] == crate::encode::TypeTag::Custom.spec_byte() {
        None
    } else {
        match spec_decode_one(s) {
            Ok((Frame::Plain(m), n)) => Some((m, n)),
            _ => None,
        }
    }
}

/// Resolves no user-defined value.
fn refuse(_decoder: u64, _payload: &[u8]) -> (r: Option<String>)
    ensures
        r is None,
{
    None
}

/// Decodes one argument from the start of `data`, returning it and the
/// number of bytes consumed (tag included); `None` when the bytes hold no
/// complete, well-formed argument.
pub fn decode_one(data: &[u8]) -> (r: Option<(DecodedArg, usize)>)
    ensures
        match spec_decode_one_plain(data@) {
            Some((m, n)) => r matches Some((a, k)) && a@ == m && k == n,
            None => r is None,
        },
{
    if data.len() > 0 && data[0] == crate::encode::TypeTag::Custom.to_u8() {
        return None;
    }
    match decode_current_one(data, &refuse) {
        Ok((a, n)) => Some((a, n)),
        Err(_) => None,
    }
}

/// Whether the frames are all plain values.
pub open spec fn all_plain(fs: Seq<Frame>) -> bool {
    forall|i: int| 0 <= i < fs.len() ==> #[trigger] fs[i] is Plain
}

/// Whether `rec` carries the header `h` and the values of the plain frames
/// `fs`, in order.
pub open spec fn plain_record(rec: RawDecodedRecord, h: RecordHeader, fs: Seq<Frame>) -> bool {
    &&& rec.timestamp_ns == h.timestamp_ns
    &&& rec.metadata_ptr == h.metadata_ptr
    &&& rec.args@.len() == fs.len()
    &&& forall|i: int| 0 <= i < fs.len() ==> fs[i] == Frame::Plain(#[trigger] rec.args@[i]@)
}

/// Decodes a complete record (header and arguments) from the start of
/// `data`; `None` when it is malformed or holds a user-defined argument.
pub fn decode_record(data: &[u8]) -> (r: Option<RawDecodedRecord>)
    ensures
        match spec_decode_record(data@) {
            Ok((h, fs, stop)) => {
                &&& r is Some <==> stop is None && all_plain(fs)
                &&& r matches Some(rec) ==> plain_record(rec, h, fs)
            },
            Err(_) => r is None,
        },
{
    let resolve = refuse;
    assert(resolver_total(resolve));
    let result = decode_current_record(data, &resolve);
    proof {
        if let Ok((h, fs, stop)) = spec_decode_record(data@) {
            if result is Ok {
                let rec = result->Ok_0;
                assert(record_outcome(Ok(rec), h, fs, stop, resolve));
                assert forall|i: int| 0 <= i < fs.len() implies fs[i] == Frame::Plain(
                    #[trigger] rec.args@[i]@,
                ) by {
                    assert(arg_matches(rec.args@[i], fs[i], resolve));
                }
                assert forall|i: int| 0 <= i < fs.len() implies #[trigger] fs[i] is Plain by {
                    assert(fs[i] == Frame::Plain(rec.args@[i]@));
                }
            } else {
                let e = result->Err_0;
                assert(record_outcome(Err(e), h, fs, stop, resolve));
                if e == DecodeError::DecoderFailed {
                    let i = choose|i: int|
                        0 <= i < fs.len() && resolve_fails(#[trigger] fs[i], resolve);
                    assert(!(fs[i] is Plain));
                }
            }
        }
    }
    match result {
        Ok(rec) => Some(rec),
        Err(_) => None,
    }
}

/// Returns the size of a record header in bytes.
pub fn _record_header_size() -> (r: usize)
    ensures
        r == RecordHeader::SIZE,
{
    RecordHeader::SIZE
}

} // verus!
