//! The fixed-size header written at the start of each log record.
//!
//! Layout (24 bytes, each field least significant byte first):
//!
//! ```text
//! [timestamp_ns: 8] [metadata_ptr: 8] [encoded_args_size: 4] [padding: 4]
//! ```

use crate::bytes::{le_bytes, le_value, lemma_le_bytes_len, lemma_le_roundtrip, lemma_le_value_bound, lemma_radix_values, push_le, radix, read_le};
use crate::encode::{push_bytes, wire_of, ArgModel, Encode};
use vstd::prelude::*;

verus! {

/// The header written at the start of each log record.
#[derive(Debug, Clone, Copy, PartialEq, Eq, Structural)]
pub struct RecordHeader {
    /// Nanoseconds since the UNIX epoch.
    pub timestamp_ns: u64,
    /// Address of the static callsite metadata of this record.
    pub metadata_ptr: usize,
    /// Total size in bytes of the encoded arguments that follow.
    pub encoded_args_size: u32,
    /// Always zero; keeps the header a multiple of eight bytes.
    pub padding: u32,
}

/// The bytes of a header.
pub open spec fn header_bytes(h: RecordHeader) -> Seq<u8> {
    le_bytes(h.timestamp_ns as nat, 8) + le_bytes(h.metadata_ptr as nat, 8) + le_bytes(
        h.encoded_args_size as nat,
        4,
    ) + le_bytes(h.padding as nat, 4)
}

/// The field values found in the first 24 bytes of `s`.
pub open spec fn header_fields(s: Seq<u8>) -> (nat, nat, nat, nat) {
    (
        le_value(s.subrange(0, 8)),
        le_value(s.subrange(8, 16)),
        le_value(s.subrange(16, 20)),
        le_value(s.subrange(20, 24)),
    )
}

/// The header stored in the first 24 bytes of `s`, if `s` is long enough and
/// the pointer field fits this platform's `usize`.
pub open spec fn spec_read_header(s: Seq<u8>) -> Option<RecordHeader> {
    if s.len() < 24 {
        None
    } else {
        let (t, p, n, pad) = header_fields(s);
        if p > usize::MAX {
            None
        } else {
            Some(
                RecordHeader {
                    timestamp_ns: t as u64,
                    metadata_ptr: p as usize,
                    encoded_args_size: n as u32,
                    padding: pad as u32,
                },
            )
        }
    }
}

impl RecordHeader {
    /// The number of bytes a header takes.
    pub const SIZE: usize = 24;

    /// Constructs a header; the padding is always zero.
    pub fn new(timestamp_ns: u64, metadata_ptr: usize, encoded_args_size: u32) -> (h: Self)
        ensures
            h.timestamp_ns == timestamp_ns,
            h.metadata_ptr == metadata_ptr,
            h.encoded_args_size == encoded_args_size,
            h.padding == 0,
    {
        RecordHeader { timestamp_ns, metadata_ptr, encoded_args_size, padding: 0 }
    }

    /// Appends the 24 bytes of this header to `out`.
    pub fn write_to(&self, out: &mut Vec<u8>)
        ensures
            final(out)@ == old(out)@ + header_bytes(*self),
            header_bytes(*self).len() == Self::SIZE,
    {
        proof {
            lemma_le_bytes_len(self.timestamp_ns as nat, 8);
            lemma_le_bytes_len(self.metadata_ptr as nat, 8);
            lemma_le_bytes_len(self.encoded_args_size as nat, 4);
            lemma_le_bytes_len(self.padding as nat, 4);
        }
        push_le(out, self.timestamp_ns as u128, 8);
        push_le(out, self.metadata_ptr as u128, 8);
        push_le(out, self.encoded_args_size as u128, 4);
        push_le(out, self.padding as u128, 4);
        assert(final(out)@ =~= old(out)@ + header_bytes(*self));
    }

    /// Reads the header stored at the start of `data`.
    ///
    /// Returns `None` when `data` holds fewer than [`Self::SIZE`] bytes, or
    /// when the pointer field does not fit this platform's `usize`.
    pub fn read_from(data: &[u8]) -> (r: Option<RecordHeader>)
        ensures
            r == spec_read_header(data@),
    {
        if data.len() < 24 {
            return None;
        }
        proof {
            lemma_radix_values();
            lemma_le_value_bound(data@.subrange(0, 8));
            lemma_le_value_bound(data@.subrange(8, 16));
            lemma_le_value_bound(data@.subrange(16, 20));
            lemma_le_value_bound(data@.subrange(20, 24));
        }
        let t = read_le(data, 0, 8);
        let p = read_le(data, 8, 8);
        let n = read_le(data, 16, 4);
        let pad = read_le(data, 20, 4);
        if p > usize::MAX as u128 {
            return None;
        }
        Some(
            RecordHeader {
                timestamp_ns: t as u64,
                metadata_ptr: p as usize,
                encoded_args_size: n as u32,
                padding: pad as u32,
            },
        )
    }
}

/// Appends one whole record to `out`: a header carrying `timestamp_ns`,
/// `metadata_ptr` and the size of what follows it, the emitting logger's
/// address as the first argument, and then `args`, the caller's encoded
/// arguments. Returns `false`, appending nothing, when the arguments do not
/// fit the header's `u32` size field.
pub fn frame_record(out: &mut Vec<u8>, timestamp_ns: u64, metadata_ptr: usize, logger_addr: usize, args: &[u8]) -> (ok:
    bool)
    ensures
        ok == (9 + args@.len() <= u32::MAX),
        ok ==> final(out)@ == old(out)@ + header_bytes(
            (RecordHeader {
                timestamp_ns,
                metadata_ptr,
                encoded_args_size: (9 + args@.len()) as u32,
                padding: 0,
            }),
        ) + wire_of(ArgModel::Usize(logger_addr as u64)) + args@,
        !ok ==> final(out)@ == old(out)@,
{
    if args.len() > (u32::MAX as usize) - 9 {
        return false;
    }
    let size = (9 + args.len()) as u32;
    let header = RecordHeader::new(timestamp_ns, metadata_ptr, size);
    header.write_to(out);
    logger_addr.encode_to(out);
    push_bytes(out, args);
    true
}

/// Reading back the bytes of a header gives the same header.
pub proof fn lemma_header_roundtrip(h: RecordHeader, rest: Seq<u8>)
    ensures
        header_bytes(h).len() == 24,
        spec_read_header(header_bytes(h) + rest) == Some(h),
{
    let t = le_bytes(h.timestamp_ns as nat, 8);
    let p = le_bytes(h.metadata_ptr as nat, 8);
    let n = le_bytes(h.encoded_args_size as nat, 4);
    let pad = le_bytes(h.padding as nat, 4);
    lemma_le_bytes_len(h.timestamp_ns as nat, 8);
    lemma_le_bytes_len(h.metadata_ptr as nat, 8);
    lemma_le_bytes_len(h.encoded_args_size as nat, 4);
    lemma_le_bytes_len(h.padding as nat, 4);
    let s = header_bytes(h) + rest;
    assert(s.subrange(0, 8) =~= t);
    assert(s.subrange(8, 16) =~= p);
    assert(s.subrange(16, 20) =~= n);
    assert(s.subrange(20, 24) =~= pad);
    lemma_radix_values();
    lemma_le_roundtrip(h.timestamp_ns as nat, 8);
    lemma_le_roundtrip(h.metadata_ptr as nat, 8);
    lemma_le_roundtrip(h.encoded_args_size as nat, 4);
    lemma_le_roundtrip(h.padding as nat, 4);
    vstd::arithmetic::div_mod::lemma_small_mod(h.timestamp_ns as nat, radix(8));
    vstd::arithmetic::div_mod::lemma_small_mod(h.metadata_ptr as nat, radix(8));
    vstd::arithmetic::div_mod::lemma_small_mod(h.encoded_args_size as nat, radix(4));
    vstd::arithmetic::div_mod::lemma_small_mod(h.padding as nat, radix(4));
}

} // verus!
