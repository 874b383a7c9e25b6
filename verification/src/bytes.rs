//! Little-endian byte-buffer primitives for the object container:
//! fixed-width reads with an explicit cursor, fixed-width writes onto a
//! growing buffer, and the 4-byte-aligned length-prefixed string record.
//! The callers that really read files hand the file's bytes in whole.

use vstd::prelude::*;

verus! {

/// Why a byte-level decode failed.
#[derive(Clone, Copy, Debug, PartialEq, Eq, Structural)]
pub enum DeserializationError {
    /// A field kind or value outside the format, carrying the value read.
    ReservedValue(u32),
    /// A reserved field holding a nonzero value, carrying the value read.
    ReservedField(u32),
    /// The buffer ends inside a record.
    PrematureEnd,
    /// A table item that may appear only once, carrying its name index.
    DuplicateItem(u32),
    /// A string-table offset no string starts at.
    UnknownStringOffset(u32),
}

/// The two little-endian bytes of a half word.
pub open spec fn spec_u16_le(x: u16) -> Seq<u8> {
    seq![(x & 0xFF) as u8, ((x >> 8) & 0xFF) as u8]
}

/// The four little-endian bytes of a word.
pub open spec fn spec_u32_le(x: u32) -> Seq<u8> {
    seq![
        (x & 0xFF) as u8,
        ((x >> 8) & 0xFF) as u8,
        ((x >> 16) & 0xFF) as u8,
        ((x >> 24) & 0xFF) as u8,
    ]
}

/// The half word two little-endian bytes encode.
pub open spec fn spec_le16_val(b0: u8, b1: u8) -> u16 {
    ((b0 as int) + 0x100 * (b1 as int)) as u16
}

/// The word four little-endian bytes encode.
pub open spec fn spec_le32_val(b0: u8, b1: u8, b2: u8, b3: u8) -> u32 {
    ((b0 as int) + 0x100 * (b1 as int) + 0x1_0000 * (b2 as int)
        + 0x100_0000 * (b3 as int)) as u32
}

/// A run of zero padding bytes.
pub open spec fn spec_zeros(n: int) -> Seq<u8> {
    Seq::new(n as nat, |i: int| 0u8)
}

/// The padding that brings a string of `n` bytes to a 4-byte boundary.
pub open spec fn spec_pad_len(n: int) -> int {
    if n % 4 == 0 {
        0
    } else {
        4 - n % 4
    }
}

/// The record of a length-prefixed string: its length, its bytes, and
/// zero padding to the next 4-byte boundary.
pub open spec fn spec_len_prefixed(s: Seq<u8>) -> Seq<u8> {
    spec_u32_le(s.len() as u32) + s + spec_zeros(spec_pad_len(s.len() as int))
}

/// Decoding a half word re-reads what encoding wrote, and the encoding
/// is the only two bytes decoding to it.
pub proof fn lemma_u16_le_roundtrip(x: u16)
    ensures
        spec_le16_val(spec_u16_le(x)[0], spec_u16_le(x)[1]) == x,
{
    assert(x & 0xFF < 0x100 && (x >> 8) & 0xFF < 0x100) by (bit_vector);
    assert((x & 0xFF) as int + 0x100 * (((x >> 8) & 0xFF) as int) == x as int) by (bit_vector);
}

/// Decoding a word re-reads what encoding wrote.
pub proof fn lemma_u32_le_roundtrip(x: u32)
    ensures
        spec_le32_val(
            spec_u32_le(x)[0],
            spec_u32_le(x)[1],
            spec_u32_le(x)[2],
            spec_u32_le(x)[3],
        ) == x,
{
    assert(x & 0xFF < 0x100 && (x >> 8) & 0xFF < 0x100 && (x >> 16) & 0xFF < 0x100
        && (x >> 24) & 0xFF < 0x100) by (bit_vector);
    assert((x & 0xFF) as int + 0x100 * (((x >> 8) & 0xFF) as int)
        + 0x1_0000 * (((x >> 16) & 0xFF) as int)
        + 0x100_0000 * (((x >> 24) & 0xFF) as int) == x as int) by (bit_vector);
}

/// Reads one byte at `pos`.
pub fn read_u8(buf: &Vec<u8>, pos: usize) -> (r: Result<(u8, usize), DeserializationError>)
    ensures
        r == (if pos + 1 <= buf@.len() {
            Ok::<(u8, usize), DeserializationError>((buf@[pos as int], (pos + 1) as usize))
        } else {
            Err::<(u8, usize), DeserializationError>(DeserializationError::PrematureEnd)
        }),
{
    if pos < buf.len() {
        Ok((buf[pos], pos + 1))
    } else {
        Err(DeserializationError::PrematureEnd)
    }
}

/// Reads a little-endian half word at `pos`.
pub fn read_u16(buf: &Vec<u8>, pos: usize) -> (r: Result<(u16, usize), DeserializationError>)
    ensures
        r == (if pos + 2 <= buf@.len() {
            Ok::<(u16, usize), DeserializationError>((
                spec_le16_val(buf@[pos as int], buf@[pos + 1]),
                (pos + 2) as usize,
            ))
        } else {
            Err::<(u16, usize), DeserializationError>(DeserializationError::PrematureEnd)
        }),
{
    if pos < buf.len() && buf.len() - pos >= 2 {
        let b0 = buf[pos] as u16;
        let b1 = buf[pos + 1] as u16;
        Ok((b0 + b1 * 0x100, pos + 2))
    } else {
        Err(DeserializationError::PrematureEnd)
    }
}

/// Reads a little-endian word at `pos`.
pub fn read_u32(buf: &Vec<u8>, pos: usize) -> (r: Result<(u32, usize), DeserializationError>)
    ensures
        r == (if pos + 4 <= buf@.len() {
            Ok::<(u32, usize), DeserializationError>((
                spec_le32_val(buf@[pos as int], buf@[pos + 1], buf@[pos + 2], buf@[pos + 3]),
                (pos + 4) as usize,
            ))
        } else {
            Err::<(u32, usize), DeserializationError>(DeserializationError::PrematureEnd)
        }),
{
    if pos < buf.len() && buf.len() - pos >= 4 {
        let b0 = buf[pos] as u32;
        let b1 = buf[pos + 1] as u32;
        let b2 = buf[pos + 2] as u32;
        let b3 = buf[pos + 3] as u32;
        Ok((b0 + b1 * 0x100 + b2 * 0x1_0000 + b3 * 0x100_0000, pos + 4))
    } else {
        Err(DeserializationError::PrematureEnd)
    }
}

/// Appends the two little-endian bytes of a half word.
pub fn write_u16(out: &mut Vec<u8>, x: u16)
    ensures
        final(out)@ == old(out)@ + spec_u16_le(x),
{
    let ghost pre = out@;
    out.push((x & 0xFF) as u8);
    out.push(((x >> 8) & 0xFF) as u8);
    proof {
        assert(out@ =~= pre + spec_u16_le(x));
    }
}

/// Appends the four little-endian bytes of a word.
pub fn write_u32(out: &mut Vec<u8>, x: u32)
    ensures
        final(out)@ == old(out)@ + spec_u32_le(x),
{
    let ghost pre = out@;
    out.push((x & 0xFF) as u8);
    out.push(((x >> 8) & 0xFF) as u8);
    out.push(((x >> 16) & 0xFF) as u8);
    out.push(((x >> 24) & 0xFF) as u8);
    proof {
        assert(out@ =~= pre + spec_u32_le(x));
    }
}

/// Appends a length-prefixed string: its length as a word, its bytes,
/// and zero padding to the next 4-byte boundary.
pub fn write_len_prefixed_str(out: &mut Vec<u8>, s: &Vec<u8>)
    requires
        s@.len() <= u32::MAX,
        old(out)@.len() + 4 + s@.len() + 3 <= usize::MAX,
    ensures
        final(out)@ == old(out)@ + spec_len_prefixed(s@),
{
    let ghost pre = out@;
    let n = s.len();
    write_u32(out, n as u32);
    let mut i: usize = 0;
    while i < n
        invariant
            i <= n,
            n == s@.len(),
            out@ == pre + spec_u32_le(n as u32) + s@.take(i as int),
        decreases n - i,
    {
        out.push(s[i]);
        proof {
            assert(out@ =~= pre + spec_u32_le(n as u32) + s@.take(i + 1));
        }
        i = i + 1;
    }
    proof {
        assert(s@.take(n as int) =~= s@);
    }
    let pad = if n % 4 == 0 {
        0
    } else {
        4 - n % 4
    };
    let mut p: usize = 0;
    while p < pad
        invariant
            p <= pad,
            pad == spec_pad_len(s@.len() as int),
            out@ == pre + spec_u32_le(s@.len() as u32) + s@ + spec_zeros(p as int),
        decreases pad - p,
    {
        out.push(0);
        proof {
            assert(out@ =~= pre + spec_u32_le(s@.len() as u32) + s@ + spec_zeros(p + 1));
        }
        p = p + 1;
    }
    proof {
        assert(out@ =~= pre + spec_len_prefixed(s@));
    }
}

/// Reads a length-prefixed string at `pos`: the string's bytes and the
/// cursor past the padding. The padding bytes are skipped, not
/// inspected.
pub fn read_len_prefixed_str(buf: &Vec<u8>, pos: usize) -> (r: Result<
    (Vec<u8>, usize),
    DeserializationError,
>)
    ensures
        match r {
            Ok((s, end)) => {
                let n = spec_le32_val(buf@[pos as int], buf@[pos + 1], buf@[pos + 2], buf@[pos + 3]) as int;
                &&& pos + 4 <= buf@.len()
                &&& pos + 4 + n + spec_pad_len(n) <= buf@.len()
                &&& s@ == buf@.subrange(pos + 4, pos + 4 + n)
                &&& end as int == pos + 4 + n + spec_pad_len(n)
            },
            Err(e) => {
                &&& e == DeserializationError::PrematureEnd
                &&& (pos + 4 > buf@.len() || pos + 4
                    + (spec_le32_val(buf@[pos as int], buf@[pos + 1], buf@[pos + 2], buf@[pos + 3]) as int)
                    + spec_pad_len(spec_le32_val(buf@[pos as int], buf@[pos + 1], buf@[pos + 2], buf@[pos + 3]) as int)
                    > buf@.len())
            },
        },
{
    let (n32, mut cur) = match read_u32(buf, pos) {
        Ok(v) => v,
        Err(e) => {
            return Err(DeserializationError::PrematureEnd);
        },
    };
    let n = n32 as usize;
    let pad = if n % 4 == 0 {
        0
    } else {
        4 - n % 4
    };
    if buf.len() - cur < n || buf.len() - cur - n < pad {
        return Err(DeserializationError::PrematureEnd);
    }
    let blen = buf.len();
    let mut s: Vec<u8> = Vec::new();
    let mut i: usize = 0;
    while i < n
        invariant
            i <= n,
            cur == pos + 4,
            blen == buf@.len(),
            cur + n + pad <= blen,
            s@ == buf@.subrange(cur as int, cur + i),
        decreases n - i,
    {
        s.push(buf[cur + i]);
        proof {
            assert(s@ =~= buf@.subrange(cur as int, cur + i + 1));
        }
        i = i + 1;
    }
    Ok((s, cur + n + pad))
}

} // verus!
